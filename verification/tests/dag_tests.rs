use toydag::dag::{Color, DagError, ToyDag};

fn chain(dag: &mut ToyDag, from: u64, count: u64) -> u64 {
    let mut parent = from;
    for _ in 0..count {
        parent = dag.create_block(vec![parent]).unwrap();
    }
    parent
}

#[test]
fn fresh_dag_state() {
    let dag = ToyDag::new();
    assert_eq!(dag.block_count(), 1);
    assert_eq!(dag.tips(), vec![0]);
    assert_eq!(dag.selected_parent(), 0);
    assert_eq!(dag.blocks[0].id, 0);
    assert!(dag.blocks[0].parents.is_empty());
    assert_eq!(dag.blocks[0].color, Color::Accepted);
}

#[test]
fn genesis_past_is_itself() {
    let dag = ToyDag::new();
    assert_eq!(dag.past_set(0).unwrap(), vec![0]);
}

#[test]
fn closures_are_reflexive() {
    let mut dag = ToyDag::new();
    dag.create_block(vec![0]).unwrap();
    dag.create_block(vec![0, 1]).unwrap();
    for id in 0..dag.block_count() as u64 {
        assert!(dag.future_set(id).unwrap().contains(&id));
        assert!(dag.past_set(id).unwrap().contains(&id));
    }
}

#[test]
fn closures_are_dual_over_edges() {
    let mut dag = ToyDag::new();
    dag.create_block(vec![0]).unwrap();
    dag.create_block(vec![0, 1]).unwrap();
    for c in 0..dag.block_count() {
        let parents = dag.blocks[c].parents.clone();
        for p in parents {
            assert!(dag.future_set(p).unwrap().contains(&(c as u64)));
            assert!(dag.past_set(c as u64).unwrap().contains(&p));
        }
    }
}

#[test]
fn every_inserted_block_is_accepted() {
    let mut dag = ToyDag::new();
    for _ in 0..6 {
        let id = dag.create_block(vec![0]).unwrap();
        assert_eq!(dag.blocks[id as usize].color, Color::Accepted);
    }
    let tips = dag.tips();
    let merge = dag.create_block(tips).unwrap();
    assert_eq!(dag.blocks[merge as usize].color, Color::Accepted);
    for b in &dag.blocks {
        assert_eq!(b.color, Color::Accepted);
    }
}

#[test]
fn empty_parents_are_rejected_without_side_effects() {
    let mut dag = ToyDag::new();
    dag.create_block(vec![0]).unwrap();
    let tips_before = dag.tips();
    let sp_before = dag.selected_parent();
    let count_before = dag.block_count();
    assert_eq!(dag.create_block(vec![]), Err(DagError::InvalidParents));
    assert_eq!(dag.tips(), tips_before);
    assert_eq!(dag.selected_parent(), sp_before);
    assert_eq!(dag.block_count(), count_before);
}

#[test]
fn unknown_parent_is_rejected_without_side_effects() {
    let mut dag = ToyDag::new();
    dag.create_block(vec![0]).unwrap();
    let tips_before = dag.tips();
    let sp_before = dag.selected_parent();
    let count_before = dag.block_count();
    assert_eq!(dag.create_block(vec![42]), Err(DagError::UnknownBlock));
    assert_eq!(dag.create_block(vec![0, 42]), Err(DagError::UnknownBlock));
    assert_eq!(dag.tips(), tips_before);
    assert_eq!(dag.selected_parent(), sp_before);
    assert_eq!(dag.block_count(), count_before);
}

#[test]
fn insertion_returns_successor_of_previous_maximum_id() {
    let mut dag = ToyDag::new();
    for expected in 1..8u64 {
        let previous_max = dag.block_count() as u64 - 1;
        let id = dag.create_block(vec![previous_max]).unwrap();
        assert_eq!(id, previous_max + 1);
        assert_eq!(id, expected);
    }
}

#[test]
fn new_block_stays_a_tip_until_referenced() {
    let mut dag = ToyDag::new();
    let a = dag.create_block(vec![0]).unwrap();
    assert!(dag.tips().contains(&a));
    // an insertion that does not reference `a` keeps it in the frontier
    let b = dag.create_block(vec![0]).unwrap();
    assert!(dag.tips().contains(&a));
    assert!(dag.tips().contains(&b));
    // referencing `a` (with more than one tip present) evicts it
    let c = dag.create_block(vec![a]).unwrap();
    assert!(!dag.tips().contains(&a));
    assert!(dag.tips().contains(&c));
}

#[test]
fn sole_tip_is_retained_beside_its_child() {
    let mut dag = ToyDag::new();
    let child = dag.create_block(vec![0]).unwrap();
    let mut tips = dag.tips();
    tips.sort();
    assert_eq!(tips, vec![0, child]);
}

#[test]
fn stitch_merges_a_fragmented_frontier() {
    let mut dag = ToyDag::new();
    for _ in 0..11 {
        dag.create_block(vec![0]).unwrap();
    }
    let tips_before = dag.tips();
    assert_eq!(tips_before.len(), 11);
    let merge = dag.maybe_stitch(10).unwrap();
    assert_eq!(merge, 12);
    assert_eq!(dag.blocks[merge as usize].parents, tips_before);
    assert!(dag.tips().contains(&merge));
    assert!(dag.tips().len() <= 2);
}

#[test]
fn stitch_is_a_noop_below_the_threshold() {
    let mut dag = ToyDag::new();
    dag.create_block(vec![0]).unwrap();
    let tips_before = dag.tips();
    let count_before = dag.block_count();
    assert_eq!(dag.maybe_stitch(10), None);
    assert_eq!(dag.tips(), tips_before);
    assert_eq!(dag.block_count(), count_before);
}

#[test]
fn selected_parent_follows_a_growing_chain() {
    let mut dag = ToyDag::new();
    let mut parent = 0u64;
    for _ in 0..5 {
        parent = dag.create_block(vec![parent]).unwrap();
        assert_eq!(dag.selected_parent(), parent);
    }
}

#[test]
fn selected_parent_is_a_maximal_accepted_tip_on_ties() {
    let mut dag = ToyDag::new();
    let a = dag.create_block(vec![0]).unwrap();
    let b = dag.create_block(vec![0]).unwrap();
    // both tips have past sets of size two; either choice is maximal
    let sp = dag.selected_parent();
    assert!(sp == a || sp == b);
    assert_eq!(dag.past_set(sp).unwrap().len(), 2);
}

#[test]
fn reachability_queries_reject_unknown_ids() {
    let dag = ToyDag::new();
    assert_eq!(dag.future_set(99).unwrap_err(), DagError::UnknownBlock);
    assert_eq!(dag.past_set(99).unwrap_err(), DagError::UnknownBlock);
}

#[test]
fn closure_members_of_a_diamond() {
    let mut dag = ToyDag::new();
    let a = dag.create_block(vec![0]).unwrap();
    let b = dag.create_block(vec![0]).unwrap();
    let top = dag.create_block(vec![a, b]).unwrap();
    assert_eq!(dag.future_set(0).unwrap(), vec![0, a, b, top]);
    assert_eq!(dag.past_set(top).unwrap(), vec![0, a, b, top]);
    assert_eq!(dag.past_set(a).unwrap(), vec![0, a]);
    assert_eq!(dag.future_set(a).unwrap(), vec![a, top]);
}

#[test]
fn anticone_sizes_in_a_diamond() {
    let mut dag = ToyDag::new();
    let a = dag.create_block(vec![0]).unwrap();
    let b = dag.create_block(vec![0]).unwrap();
    dag.create_block(vec![a, b]).unwrap();
    // the futures of the two middle blocks differ by one block each
    assert_eq!(dag.anticone_size(a, b), 0);
    assert_eq!(dag.anticone_size(b, a), 0);
    // an unrecorded candidate has a degenerate future cone: anticone zero
    assert_eq!(dag.anticone_size(99, 0), 0);
}

#[test]
fn long_chain_past_sizes_grow() {
    let mut dag = ToyDag::new();
    let last = chain(&mut dag, 0, 20);
    assert_eq!(dag.past_set(last).unwrap().len(), 21);
    assert_eq!(dag.past_size(last), 21);
    assert_eq!(dag.future_set(0).unwrap().len(), 21);
}

#[test]
fn duplicate_parents_are_tolerated() {
    let mut dag = ToyDag::new();
    let id = dag.create_block(vec![0, 0]).unwrap();
    assert_eq!(id, 1);
    assert_eq!(dag.blocks[1].parents, vec![0, 0]);
    assert!(dag.tips().contains(&id));
    assert_eq!(dag.past_set(id).unwrap(), vec![0, id]);
}
