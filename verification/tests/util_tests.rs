//! Behaviour of the supporting utilities: ring cursor, direction set,
//! stopwatch, memory pool, and mesh record types.

use automata::direction::DIR_DOWN;
use automata::direction::DIR_EAST;
use automata::direction::DIR_NORTH;
use automata::direction::DIR_SOUTH;
use automata::direction::DIR_UP;
use automata::direction::DIR_WEST;
use automata::direction::DirectionSet;
use automata::direction::opposite_direction;
use automata::memory::MemoryPool;
use automata::mesher::wrap;
use automata::mesh::DrawElementsIndirectCommand;
use automata::mesh::QuadIndexes;
use automata::mesh::QuadVertexes;
use automata::ring::RingIndex;
use automata::time::Stopwatch;

#[test]
fn ring_index_wraps_at_max() {
    let mut r = RingIndex::new(3);
    assert_eq!(r.index(), 0);
    assert_eq!(r.next_index(), 1);
    r.increment();
    assert_eq!(r.index(), 1);
    r.increment();
    assert_eq!(r.index(), 2);
    assert_eq!(r.next_index(), 0);
    r.increment();
    assert_eq!(r.index(), 0);
}

#[test]
fn direction_set_tracks_inserted_members() {
    let empty = DirectionSet::empty();
    assert!(!empty.contains(DIR_EAST));
    let with_east = empty.with(DIR_EAST);
    assert!(with_east.contains(DIR_EAST));
    assert!(!with_east.contains(DIR_WEST));
    let both = with_east.with(DIR_WEST);
    assert!(both.contains(DIR_EAST));
    assert!(both.contains(DIR_WEST));
}

#[test]
fn opposite_directions_pair_up() {
    assert_eq!(opposite_direction(DIR_EAST), DIR_WEST);
    assert_eq!(opposite_direction(DIR_WEST), DIR_EAST);
    assert_eq!(opposite_direction(DIR_UP), DIR_DOWN);
    assert_eq!(opposite_direction(DIR_DOWN), DIR_UP);
    assert_eq!(opposite_direction(DIR_NORTH), DIR_SOUTH);
    assert_eq!(opposite_direction(DIR_SOUTH), DIR_NORTH);
}

#[test]
fn stopwatch_records_and_resets() {
    let mut sw = Stopwatch::new();
    assert_eq!(sw.elapsed(), 0);
    assert_eq!(sw.elapsed_ms(), 0);
    sw.start();
    sw.stop();
    sw.reset();
    assert_eq!(sw.elapsed(), 0);
    let mut running = Stopwatch::start_new();
    running.stop();
}

#[test]
fn memory_pool_rents_first_fit() {
    let mut pool = MemoryPool::new(100);
    assert_eq!(pool.remaining_bytes(), 100);
    let a = pool.rent_slice(10, 1).unwrap();
    assert_eq!(a.index, 0);
    assert_eq!(a.size, 10);
    assert_eq!(pool.remaining_bytes(), 90);
    let b = pool.rent_slice(20, 1).unwrap();
    assert_eq!(b.index, 10);
    assert_eq!(pool.remaining_bytes(), 70);
    pool.return_slice(&a);
    assert_eq!(pool.remaining_bytes(), 80);
}

#[test]
fn memory_pool_honours_alignment() {
    let mut pool = MemoryPool::new(100);
    let a = pool.rent_slice(10, 1).unwrap();
    assert_eq!(a.index, 0);
    let b = pool.rent_slice(10, 16).unwrap();
    assert_eq!(b.index, 16);
    assert_eq!(b.index % 16, 0);
    assert_eq!(pool.remaining_bytes(), 80);
}

#[test]
fn memory_pool_refuses_oversized_requests() {
    let mut pool = MemoryPool::new(50);
    assert!(pool.rent_slice(60, 1).is_none());
    let whole = pool.rent_slice(50, 1).unwrap();
    assert_eq!(whole.index, 0);
    assert!(pool.rent_slice(1, 1).is_none());
    pool.return_slice(&whole);
    assert!(pool.rent_slice(1, 1).is_some());
}

#[test]
fn wrap_walks_the_ring_both_ways() {
    assert_eq!(wrap(31, 1, 0, 31), 0);
    assert_eq!(wrap(0, -1, 0, 31), 31);
    assert_eq!(wrap(5, 3, 0, 31), 8);
    assert_eq!(wrap(7, -2, 3, 10), 5);
    assert_eq!(wrap(3, -1, 3, 10), 10);
}

#[test]
fn quad_records_store_their_elements() {
    let q = QuadIndexes::new([0u32, 1, 3, 1, 2, 3]);
    assert_eq!(*q.get(0), 0);
    assert_eq!(*q.get(5), 3);
    let v = QuadVertexes::new([10u32, 11, 12, 13]);
    assert_eq!(*v.get(3), 13);
    let cmd = DrawElementsIndirectCommand::new(6, 1, 0, 0, 0);
    assert_eq!(cmd.index_count, 6);
    assert_eq!(cmd.instance_count, 1);
}
