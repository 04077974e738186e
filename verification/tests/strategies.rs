use sort_visualizer::algorithms::{BubbleSort, QuickSort, Sorting};
use sort_visualizer::event::{Emission, Event};

fn swaps(log: &[Emission]) -> Vec<(u16, u16)> {
    let mut pairs = Vec::new();
    for emission in log {
        if let Event::Swap { left, right } = emission.event {
            pairs.push((left, right));
        }
    }
    pairs
}

fn replayed(start: &[usize], log: &[Emission]) -> Vec<usize> {
    let mut values = start.to_vec();
    for (left, right) in swaps(log) {
        values.swap(left as usize, right as usize);
    }
    values
}

fn is_permutation(values: &[usize]) -> bool {
    let mut seen = vec![false; values.len()];
    for &v in values {
        if v >= values.len() || seen[v] {
            return false;
        }
        seen[v] = true;
    }
    true
}

#[test]
fn bubble_sort_three_values() {
    let mut strategy = BubbleSort::from_sequence(vec![3, 1, 2]);
    let placed = strategy.engine().emissions().len();
    strategy.sort();
    let log = &strategy.engine().emissions()[placed..];
    assert_eq!(swaps(log), vec![(0, 1), (1, 2)]);
    assert_eq!(strategy.engine().values(), &vec![1, 2, 3]);
}

#[test]
fn bubble_sort_full_log_of_three_values() {
    let mut strategy = BubbleSort::from_sequence(vec![3, 1, 2]);
    strategy.sort();
    let expected = vec![
        Emission { event: Event::Clear, pause_ms: 0 },
        Emission { event: Event::Place { index: 0, height: 3 }, pause_ms: 0 },
        Emission { event: Event::Place { index: 1, height: 1 }, pause_ms: 0 },
        Emission { event: Event::Place { index: 2, height: 2 }, pause_ms: 0 },
        Emission { event: Event::Swap { left: 0, right: 1 }, pause_ms: 20 },
        Emission { event: Event::Swap { left: 1, right: 2 }, pause_ms: 20 },
        Emission { event: Event::VerifyStep { index: 0 }, pause_ms: 0 },
        Emission { event: Event::VerifyStep { index: 1 }, pause_ms: 30 },
        Emission { event: Event::VerifyStep { index: 2 }, pause_ms: 0 },
    ];
    assert_eq!(strategy.engine().emissions(), &expected);
}

#[test]
fn quick_sort_five_values() {
    let mut strategy = QuickSort::from_sequence(vec![5, 3, 8, 4, 2]);
    let placed = strategy.engine().emissions().len();
    strategy.sort();
    let log = &strategy.engine().emissions()[placed..];
    assert_eq!(swaps(log), vec![(0, 4), (2, 3), (3, 4), (2, 2)]);
    assert_eq!(strategy.engine().values(), &vec![2, 3, 4, 5, 8]);
}

#[test]
fn quick_sort_partition_of_five_values() {
    let mut strategy = QuickSort::from_sequence(vec![5, 3, 8, 4, 2]);
    let p = strategy.partition(0, 4);
    assert_eq!(p, 0);
    assert_eq!(strategy.engine().values(), &vec![2, 3, 8, 4, 5]);
    let p = strategy.partition(1, 4);
    assert_eq!(p, 3);
    assert_eq!(strategy.engine().values(), &vec![2, 3, 4, 5, 8]);
}

#[test]
fn quick_sort_of_a_range_leaves_the_rest() {
    let mut strategy = QuickSort::from_sequence(vec![9, 7, 5, 6, 4, 0]);
    strategy.quick_sort(1, 4);
    assert_eq!(strategy.engine().values(), &vec![9, 4, 5, 6, 7, 0]);
    strategy.quick_sort(3, 3);
    strategy.quick_sort(4, 2);
    assert_eq!(strategy.engine().values(), &vec![9, 4, 5, 6, 7, 0]);
}

#[test]
fn single_value_bubble_sort() {
    let mut strategy = BubbleSort::from_sequence(vec![0]);
    let placed = strategy.engine().emissions().len();
    strategy.sort();
    let log = &strategy.engine().emissions()[placed..];
    assert!(swaps(log).is_empty());
    let sentinel = Emission { event: Event::VerifyStep { index: 0 }, pause_ms: 0 };
    assert_eq!(log, &[sentinel, sentinel]);
    assert_eq!(strategy.engine().values(), &vec![0]);
}

#[test]
fn single_value_quick_sort() {
    let mut strategy = QuickSort::from_sequence(vec![0]);
    let placed = strategy.engine().emissions().len();
    strategy.sort();
    let log = &strategy.engine().emissions()[placed..];
    assert!(swaps(log).is_empty());
    assert_eq!(log.len(), 2);
}

#[test]
fn single_value_verifies() {
    let mut engine = Sorting::new(1);
    engine.replace(vec![0]);
    assert!(engine.verify());
}

#[test]
fn randomize_gives_a_permutation() {
    for size in [1u16, 2, 3, 17, 80, 200] {
        let mut engine = Sorting::new(size);
        engine.randomize();
        assert_eq!(engine.values().len(), size as usize);
        assert!(is_permutation(engine.values()));
    }
}

#[test]
fn randomize_places_every_value() {
    let mut engine = Sorting::new(12);
    engine.randomize();
    let log = engine.emissions();
    assert_eq!(log.len(), 13);
    assert_eq!(log[0], Emission { event: Event::Clear, pause_ms: 0 });
    for i in 0..12 {
        let height = engine.values()[i] as u16;
        let place = Event::Place { index: i as u16, height };
        assert_eq!(log[i + 1], Emission { event: place, pause_ms: 0 });
    }
}

#[test]
fn randomize_again_replaces_the_sequence() {
    let mut engine = Sorting::new(6);
    engine.randomize();
    engine.randomize();
    assert_eq!(engine.values().len(), 6);
    assert!(is_permutation(engine.values()));
    assert_eq!(engine.emissions().len(), 14);
    assert_eq!(engine.emissions()[7].event, Event::Clear);
}

#[test]
fn new_engine_is_empty() {
    let engine = Sorting::new(40);
    assert!(engine.values().is_empty());
    assert!(engine.emissions().is_empty());
}

#[test]
fn swap_items_exchanges_and_queues_one_swap() {
    let mut engine = Sorting::new(3);
    engine.replace(vec![7, 8, 9]);
    let before = engine.emissions().len();
    engine.swap_items(0, 2);
    assert_eq!(engine.values(), &vec![9, 8, 7]);
    assert_eq!(engine.emissions().len(), before + 1);
    let last = engine.emissions()[before];
    assert_eq!(last, Emission { event: Event::Swap { left: 0, right: 2 }, pause_ms: 20 });
}

#[test]
fn swap_items_with_itself() {
    let mut engine = Sorting::new(2);
    engine.replace(vec![4, 5]);
    engine.swap_items(1, 1);
    assert_eq!(engine.values(), &vec![4, 5]);
    assert_eq!(engine.emissions().last().unwrap().event, Event::Swap { left: 1, right: 1 });
}

#[test]
fn verify_stops_at_the_first_violation() {
    let mut engine = Sorting::new(6);
    engine.replace(vec![0, 1, 2, 5, 4, 3]);
    let before = engine.emissions().len();
    assert!(!engine.verify());
    let log = &engine.emissions()[before..];
    let expected = [
        Emission { event: Event::VerifyStep { index: 0 }, pause_ms: 0 },
        Emission { event: Event::VerifyStep { index: 1 }, pause_ms: 30 },
        Emission { event: Event::VerifyStep { index: 2 }, pause_ms: 30 },
    ];
    assert_eq!(log, &expected);
    assert_eq!(engine.values(), &vec![0, 1, 2, 5, 4, 3]);
}

#[test]
fn verify_of_an_ascending_sequence() {
    let mut engine = Sorting::new(4);
    engine.replace(vec![0, 1, 2, 3]);
    let before = engine.emissions().len();
    assert!(engine.verify());
    let log = &engine.emissions()[before..];
    let expected = [
        Emission { event: Event::VerifyStep { index: 0 }, pause_ms: 0 },
        Emission { event: Event::VerifyStep { index: 1 }, pause_ms: 30 },
        Emission { event: Event::VerifyStep { index: 2 }, pause_ms: 30 },
        Emission { event: Event::VerifyStep { index: 3 }, pause_ms: 0 },
    ];
    assert_eq!(log, &expected);
}

#[test]
fn verify_rejects_equal_neighbours() {
    let mut engine = Sorting::new(3);
    engine.replace(vec![1, 1, 2]);
    assert!(!engine.verify());
}

#[test]
fn verify_of_two_values_finds_no_interior_index() {
    let mut engine = Sorting::new(2);
    engine.replace(vec![1, 0]);
    let before = engine.emissions().len();
    assert!(engine.verify());
    let log = &engine.emissions()[before..];
    let expected = [
        Emission { event: Event::VerifyStep { index: 0 }, pause_ms: 0 },
        Emission { event: Event::VerifyStep { index: 1 }, pause_ms: 0 },
    ];
    assert_eq!(log, &expected);
}

#[test]
fn bubble_sort_orders_random_permutations() {
    for size in [1u16, 2, 3, 5, 16, 63] {
        let mut strategy = BubbleSort::new(size);
        let start = strategy.engine().values().clone();
        let placed = strategy.engine().emissions().len();
        strategy.sort();
        let expected: Vec<usize> = (0..size as usize).collect();
        assert_eq!(strategy.engine().values(), &expected);
        let log = &strategy.engine().emissions()[placed..];
        assert_eq!(replayed(&start, log), expected);
    }
}

#[test]
fn quick_sort_orders_random_permutations() {
    for size in [1u16, 2, 3, 5, 16, 63] {
        let mut strategy = QuickSort::new(size);
        let start = strategy.engine().values().clone();
        let placed = strategy.engine().emissions().len();
        strategy.sort();
        let expected: Vec<usize> = (0..size as usize).collect();
        assert_eq!(strategy.engine().values(), &expected);
        let log = &strategy.engine().emissions()[placed..];
        assert_eq!(replayed(&start, log), expected);
    }
}

#[test]
fn sorting_ends_with_a_full_verification() {
    let mut strategy = QuickSort::new(9);
    strategy.sort();
    let log = strategy.engine().emissions();
    let tail = &log[log.len() - 9..];
    for (i, emission) in tail.iter().enumerate() {
        assert_eq!(emission.event, Event::VerifyStep { index: i as u16 });
    }
}

#[test]
fn sorts_keep_duplicates() {
    let mut bubble = BubbleSort::from_sequence(vec![2, 1, 2, 0, 1]);
    bubble.sort();
    assert_eq!(bubble.engine().values(), &vec![0, 1, 1, 2, 2]);
    let mut quick = QuickSort::from_sequence(vec![2, 1, 2, 0, 1]);
    quick.sort();
    assert_eq!(quick.engine().values(), &vec![0, 1, 1, 2, 2]);
}

#[test]
fn bubble_sort_of_a_descending_sequence() {
    let mut strategy = BubbleSort::from_sequence(vec![3, 2, 1, 0]);
    let placed = strategy.engine().emissions().len();
    strategy.sort();
    let log = &strategy.engine().emissions()[placed..];
    assert_eq!(swaps(log), vec![(0, 1), (1, 2), (2, 3), (0, 1), (1, 2), (0, 1)]);
    assert_eq!(strategy.engine().values(), &vec![0, 1, 2, 3]);
}

#[test]
fn randomize_changes_the_order() {
    let mut engine = Sorting::new(200);
    engine.randomize();
    let in_order: Vec<usize> = (0..200).collect();
    assert_ne!(engine.values(), &in_order);
}

#[test]
fn partition_of_a_single_value() {
    let mut strategy = QuickSort::from_sequence(vec![4, 2]);
    let placed = strategy.engine().emissions().len();
    let p = strategy.partition(1, 1);
    assert_eq!(p, 1);
    assert_eq!(strategy.engine().values(), &vec![4, 2]);
    assert_eq!(swaps(&strategy.engine().emissions()[placed..]), vec![(1, 1)]);
}

#[test]
fn partition_with_values_equal_to_the_pivot() {
    let mut strategy = QuickSort::from_sequence(vec![3, 1, 3, 0, 3]);
    let placed = strategy.engine().emissions().len();
    let p = strategy.partition(0, 4);
    assert_eq!(p, 2);
    assert_eq!(strategy.engine().values(), &vec![0, 1, 3, 3, 3]);
    assert_eq!(swaps(&strategy.engine().emissions()[placed..]), vec![(0, 3), (2, 4)]);
}
