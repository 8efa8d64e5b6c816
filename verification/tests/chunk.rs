use core_engine::node::chunk::ChunkNode;
use core_engine::node::Node;

#[test]
fn test_chunks_at_exact_batch_size() {
    let mut node = ChunkNode::new(3);

    let res1 = node.execute(&1).unwrap();
    assert!(res1.is_empty());

    let res2 = node.execute(&2).unwrap();
    assert!(res2.is_empty());

    let res3 = node.execute(&3).unwrap();
    assert_eq!(res3, vec![vec![1, 2, 3]]);
}

#[test]
fn test_multiple_chunks() {
    let mut node = ChunkNode::new(2);

    let _ = node.execute(&1).unwrap();
    let chunk1 = node.execute(&2).unwrap();
    assert_eq!(chunk1, vec![vec![1, 2]]);

    let _ = node.execute(&3).unwrap();
    let chunk2 = node.execute(&4).unwrap();
    assert_eq!(chunk2, vec![vec![3, 4]]);
}

#[test]
fn test_flush_emits_partial_chunk() {
    let mut node = ChunkNode::new(5);

    let _ = node.execute(&1).unwrap();
    let _ = node.execute(&2).unwrap();

    let flush_res = node.flush().unwrap();
    assert_eq!(flush_res, vec![vec![1, 2]]);

    let flush2 = node.flush().unwrap();
    assert!(flush2.is_empty());
}

#[test]
fn chunks_followed_by_the_flush_are_the_items() {
    for batch_size in 1..6 {
        let mut node = ChunkNode::new(batch_size);
        let mut chunks: Vec<Vec<u32>> = Vec::new();
        for item in 0..17 {
            let emitted = node.execute(&item).unwrap();
            assert!(emitted.iter().all(|chunk| chunk.len() == batch_size));
            chunks.extend(emitted);
        }
        let rest = node.flush().unwrap();
        assert!(rest.iter().all(|chunk| !chunk.is_empty() && chunk.len() < batch_size));
        chunks.extend(rest);
        assert_eq!(chunks.concat(), (0..17).collect::<Vec<u32>>());
    }
}

#[test]
fn a_batch_of_one_passes_items_through() {
    let mut node = ChunkNode::new(1);
    assert_eq!(node.execute(&"a".to_string()).unwrap(), vec![vec!["a".to_string()]]);
    assert!(node.flush().unwrap().is_empty());
}
