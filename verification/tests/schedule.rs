use raytracer::schedule::{worker_count, workers_for, Collector, LineCounter};

#[test]
fn counter_hands_out_each_row_once_in_order() {
    let mut counter = LineCounter::new(4);
    assert_eq!(counter.height(), 4);
    assert_eq!(counter.claimed(), 0);
    assert_eq!(counter.claim(), Some(0));
    assert_eq!(counter.claim(), Some(1));
    assert_eq!(counter.claimed(), 2);
    assert_eq!(counter.claim(), Some(2));
    assert_eq!(counter.claim(), Some(3));
    assert_eq!(counter.claim(), None);
    assert_eq!(counter.claim(), None);
    assert_eq!(counter.claimed(), 4);
}

#[test]
fn counter_of_an_empty_image_has_nothing_to_claim() {
    let mut counter = LineCounter::new(0);
    assert_eq!(counter.claim(), None);
    assert_eq!(counter.claimed(), 0);
}

#[test]
fn collector_places_rows_by_index_not_by_arrival() {
    let mut collector = Collector::new(2, 3, 0u32);
    assert_eq!((collector.width(), collector.height()), (2, 3));
    assert_eq!(collector.received(), 0);
    assert!(!collector.is_complete());
    collector.receive(vec![20, 21], 2);
    collector.receive(vec![0, 1], 0);
    assert_eq!(collector.received(), 2);
    assert!(!collector.is_complete());
    collector.receive(vec![10, 11], 1);
    assert!(collector.is_complete());
    let image = collector.into_image();
    for y in 0..3 {
        for x in 0..2 {
            assert_eq!(*image.get(x, y), (10 * y + x) as u32);
        }
    }
}

#[test]
fn collector_of_an_empty_image_is_complete_at_once() {
    let collector = Collector::new(4, 0, 0u8);
    assert!(collector.is_complete());
    let image = collector.into_image();
    assert_eq!((image.width(), image.height()), (4, 0));
}

// Runs a render with `workers` workers. `order` picks, at each step, the
// worker that moves next: a worker without a row claims one, a worker with a
// row delivers it. Returns the indices in order of arrival and the image.
fn run(workers: usize, height: usize, order: &[usize]) -> (Vec<usize>, Vec<Vec<u32>>) {
    let width = 3;
    let mut counter = LineCounter::new(height);
    let mut collector = Collector::new(width, height, u32::MAX);
    let mut holding: Vec<Option<usize>> = vec![None; workers];
    let mut done = vec![false; workers];
    let mut arrived = Vec::new();
    let mut step = 0;
    while !collector.is_complete() {
        let worker = order[step % order.len()] % workers;
        step += 1;
        if done[worker] {
            continue;
        }
        match holding[worker].take() {
            None => match counter.claim() {
                Some(y) => holding[worker] = Some(y),
                None => done[worker] = true,
            },
            Some(y) => {
                let line = (0..width).map(|x| (100 * y + x) as u32).collect();
                collector.receive(line, y);
                arrived.push(y);
            }
        }
    }
    let image = collector.into_image();
    let rows = (0..height).map(|y| (0..width).map(|x| *image.get(x, y)).collect()).collect();
    (arrived, rows)
}

// Worker counts and interleavings differ; each row is written exactly once,
// at its own index.
#[test]
fn every_row_is_written_once_whatever_the_order() {
    let height = 7;
    let expected: Vec<Vec<u32>> =
        (0..height).map(|y| (0..3).map(|x| (100 * y + x) as u32).collect()).collect();
    let orders: [&[usize]; 4] = [&[0], &[0, 1, 2], &[2, 2, 1, 0, 0, 0, 1], &[3, 1, 4, 1, 5, 9, 2, 6]];
    for workers in 1..6 {
        for order in orders.iter() {
            let (arrived, rows) = run(workers, height, order);
            assert_eq!(arrived.len(), height);
            let mut sorted = arrived.clone();
            sorted.sort();
            assert_eq!(sorted, (0..height).collect::<Vec<usize>>());
            assert_eq!(rows, expected);
        }
    }
}

#[test]
fn rows_arrive_out_of_order_with_several_workers() {
    // worker 0 claims row 0 and is slow; worker 1 claims and delivers row 1 first
    let (arrived, rows) = run(2, 2, &[0, 1, 1, 0]);
    assert_eq!(arrived, vec![1, 0]);
    assert_eq!(rows, vec![vec![0, 1, 2], vec![100, 101, 102]]);
}

#[test]
fn workers_for_gives_one_worker_for_each_processor() {
    assert_eq!(workers_for(1), 1);
    assert_eq!(workers_for(8), 8);
    assert_eq!(workers_for(usize::MAX), usize::MAX);
}

#[test]
fn workers_for_no_processor_is_one_worker() {
    assert_eq!(workers_for(0), 1);
}

#[test]
fn worker_count_is_at_least_one() {
    let workers = worker_count();
    assert!(workers >= 1);
    assert_eq!(workers, num_cpus::get());
}
