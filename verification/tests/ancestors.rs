use mononoke::ancestors::{AncestorWalk, Between};
use mononoke::errors::CommandError;
use mononoke::hash::NodeHash;

fn node(n: u8) -> NodeHash {
    let mut bytes = [0u8; 20];
    bytes[0] = 0xaa;
    bytes[19] = n;
    NodeHash { bytes }
}

/// The first parent of `node(n)` in a history where `node(n)` has the
/// parent `node(n - 1)` and `node(1)` has none.
fn first_parent(hash: NodeHash) -> Option<NodeHash> {
    let n = hash.bytes[19];
    if n > 1 {
        Some(node(n - 1))
    } else {
        None
    }
}

fn walk_all(top: NodeHash, bottom: NodeHash) -> Vec<NodeHash> {
    let mut walk = AncestorWalk::new(top, bottom);
    while let Some(needed) = walk.next_fetch() {
        walk.advance(first_parent(needed));
    }
    walk.into_kept()
}

#[test]
fn chain_of_ten_keeps_positions_one_two_four_eight() {
    // node(10) is the top; node(10 - i) stands at position i.
    assert_eq!(
        walk_all(node(10), node(1)),
        vec![node(9), node(8), node(6), node(2)]
    );
}

#[test]
fn chain_to_the_root_keeps_positions_one_two_four_eight() {
    let unrelated = node(200);
    assert_eq!(
        walk_all(node(10), unrelated),
        vec![node(9), node(8), node(6), node(2)]
    );
}

#[test]
fn long_chain_keeps_the_powers_of_two() {
    let kept = walk_all(node(100), node(1));
    assert_eq!(
        kept,
        vec![node(99), node(98), node(96), node(92), node(84), node(68), node(36)]
    );
}

#[test]
fn between_a_node_and_itself_is_empty() {
    for n in [1u8, 5, 10] {
        let walk = AncestorWalk::new(node(n), node(n));
        assert!(walk.is_done());
        assert_eq!(walk.next_fetch(), None);
        assert_eq!(walk_all(node(n), node(n)), Vec::<NodeHash>::new());
    }
}

#[test]
fn walk_from_the_null_hash_is_empty() {
    let walk = AncestorWalk::new(NodeHash::null(), node(3));
    assert!(walk.is_done());
    assert_eq!(walk.into_kept(), Vec::<NodeHash>::new());
}

#[test]
fn short_chains() {
    assert_eq!(walk_all(node(2), node(1)), Vec::<NodeHash>::new());
    assert_eq!(walk_all(node(3), node(1)), vec![node(2)]);
    assert_eq!(walk_all(node(4), node(1)), vec![node(3), node(2)]);
}

#[test]
fn a_finished_walk_ignores_what_it_is_told() {
    let mut walk = AncestorWalk::new(node(2), node(1));
    walk.advance(Some(node(1)));
    assert!(walk.is_done());
    walk.advance(Some(node(7)));
    assert!(walk.is_done());
    assert_eq!(walk.next_fetch(), None);
    assert_eq!(walk.kept(), &Vec::<NodeHash>::new());
}

#[test]
fn between_answers_in_the_order_of_the_pairs() {
    let pairs = vec![
        (node(10), node(1)),
        (node(5), node(5)),
        (node(4), node(1)),
        (node(3), node(200)),
    ];
    let mut request = Between::new(&pairs);
    let mut asked = Vec::new();
    while let Some(needed) = request.next_fetch() {
        asked.push(needed);
        request.supply(first_parent(needed));
    }
    assert_eq!(asked.len(), 9 + 3 + 3);
    assert_eq!(
        request.finish(),
        Ok(vec![
            vec![node(9), node(8), node(6), node(2)],
            vec![],
            vec![node(3), node(2)],
            vec![node(2), node(1)],
        ])
    );
}

#[test]
fn between_without_pairs_is_empty() {
    let request = Between::new(&Vec::new());
    assert_eq!(request.next_fetch(), None);
    assert_eq!(request.finish(), Ok(vec![]));
}

#[test]
fn a_missing_changeset_fails_the_request() {
    let pairs = vec![(node(4), node(1)), (node(9), node(1))];
    let mut request = Between::new(&pairs);
    assert_eq!(request.next_fetch(), Some(node(4)));
    request.supply(Some(node(3)));
    assert_eq!(request.next_fetch(), Some(node(3)));
    request.fail();
    assert_eq!(request.next_fetch(), None);
    request.supply(Some(node(2)));
    assert_eq!(request.finish(), Err(CommandError::ChangesetNotFound(node(3))));
}
