use beam_search::heap::Heap;
use beam_search::node::Node;
use beam_search::two_comparison::Point;

#[test]
fn it_works() {
    let result = beam_search::add(2, 2);
    assert_eq!(result, 4);
}

#[test]
fn test_sort() {
    let nodes = [Node::new(0, 10), Node::new(1, -20), Node::new(2, 100)];

    let mut q: Heap<Node> = Heap::new();
    for node in nodes {
        q.push(node);
    }
}

#[test]
fn test_sort_by_one_comparison() {
    let nodes = [
        Node::new(0, 10),
        Node::new(1, -20),
        Node::new(2, 100),
        Node::new(3, 100),
    ];

    let mut q: Heap<Node> = Heap::new();
    for node in nodes {
        q.push(node);
    }

    let mut ans = vec![];
    while !q.is_empty() {
        let node = q.pop().unwrap();
        ans.push(node.id);
    }

    let est = vec![2, 3, 0, 1];
    assert_eq!(ans, est);
}

#[test]
fn test_two_comparison() {
    // Only the distance-then-score rank order is defined for points: the
    // nearest pops first, and among equally near points the higher score.
    // Points that rank fully equal leave in the heap's deterministic sift
    // order, not in the order they were pushed.
    let points = [
        Point::new(0, 2, 10),
        Point::new(1, 0, 30),
        Point::new(2, 2, 10),
        Point::new(3, 30, 0),
        Point::new(4, 5, 100),
    ];

    let mut q: Heap<Point> = Heap::new();
    for point in points {
        q.push(point);
    }
    let mut ans = vec![];
    while !q.is_empty() {
        let point = q.pop().unwrap();
        ans.push(point.id);
    }

    let est = vec![1, 2, 0, 4, 3];
    assert_eq!(ans, est);
}

#[test]
fn test_new_node_has_no_links() {
    let node = Node::new(9, -3);
    assert_eq!(node.id, 9);
    assert_eq!(node.score, -3);
    assert!(node.parent.is_none());
    assert!(node.childs.is_empty());
}

#[test]
fn test_pop_on_empty_heap() {
    let mut q: Heap<Node> = Heap::new();
    assert!(q.is_empty());
    assert!(q.pop().is_none());
    assert!(q.peek().is_none());
    assert_eq!(q.len(), 0);
}

#[test]
fn test_peek_is_max() {
    let mut q: Heap<Node> = Heap::new();
    q.push(Node::new(0, 5));
    q.push(Node::new(1, 42));
    q.push(Node::new(2, -7));
    assert_eq!(q.peek().unwrap().score, 42);
    assert_eq!(q.len(), 3);
    assert_eq!(q.pop().unwrap().score, 42);
    assert_eq!(q.pop().unwrap().score, 5);
    assert_eq!(q.pop().unwrap().score, -7);
}
