use juice_bar::blender::{Blender, BlenderStatus};
use juice_bar::error::StoreError;
use juice_bar::order::{Object, Order};
use juice_bar::store::Store;

fn order(name: &str, costs: &[u32]) -> Order {
    let mut ingredients = Vec::new();
    for cost in costs {
        ingredients.push(Object { blend_ms_per_w: *cost, name: format!("item{}", cost) });
    }
    Order { name: name.to_string(), ingredients }
}

fn two_blenders() -> Store {
    Store::new(vec![Blender::new(1200), Blender::new(2000)])
}

#[test]
fn new_store_has_its_blenders_and_no_orders() {
    let store = two_blenders();
    assert_eq!(store.blenders, vec![Blender::new(1200), Blender::new(2000)]);
    assert_eq!(store.queue_len(), 0);
    assert_eq!(store.queue.size(), 0);
}

#[test]
fn submit_appends_to_the_queue() {
    let mut store = two_blenders();
    store.submit(order("Jahred", &[9000, 1000]));
    assert_eq!(store.queue_len(), 1);
    store.submit(order("Tadhg", &[9000]));
    assert_eq!(store.queue_len(), 2);
    assert_eq!(store.queue.peek().unwrap().name, "Jahred");
    assert_eq!(store.blenders, vec![Blender::new(1200), Blender::new(2000)]);
}

#[test]
fn tick_on_an_empty_store_changes_nothing() {
    let mut store = two_blenders();
    assert_eq!(store.tick_at(5), Ok(()));
    assert_eq!(store.tick_at(6), Ok(()));
    assert_eq!(store.queue_len(), 0);
    assert_eq!(store.blenders, vec![Blender::new(1200), Blender::new(2000)]);
}

#[test]
fn tick_hands_the_oldest_order_to_the_first_free_blender() {
    let mut store = two_blenders();
    store.submit(order("Jahred", &[9000, 1000]));
    store.submit(order("Tadhg", &[9000]));
    assert_eq!(store.tick_at(100), Ok(()));
    assert_eq!(store.queue_len(), 1);
    assert_eq!(store.queue.peek().unwrap().name, "Tadhg");
    assert_eq!(
        store.blenders,
        vec![Blender { speed: 1200, state: Some((100, 7)) }, Blender::new(2000)]
    );
}

#[test]
fn one_order_per_tick_even_with_two_free_blenders() {
    let mut store = two_blenders();
    store.submit(order("a", &[9000, 1000]));
    store.submit(order("b", &[9000, 90000]));
    store.submit(order("c", &[9000]));
    assert_eq!(store.tick_at(0), Ok(()));
    assert_eq!(store.queue_len(), 2);
    assert_eq!(store.blenders[1], Blender::new(2000));
    assert_eq!(store.tick_at(0), Ok(()));
    assert_eq!(store.queue_len(), 1);
    assert_eq!(
        store.blenders,
        vec![
            Blender { speed: 1200, state: Some((0, 7)) },
            Blender { speed: 2000, state: Some((0, 49)) },
        ]
    );
}

#[test]
fn orders_are_served_in_arrival_order() {
    let mut store = Store::new(vec![
        Blender::new(1),
        Blender::new(1),
        Blender::new(1),
        Blender::new(1),
    ]);
    store.submit(order("first", &[11]));
    store.submit(order("second", &[22]));
    store.submit(order("third", &[33]));
    store.submit(order("fourth", &[44]));
    let mut heads = Vec::new();
    let mut now = 0;
    while store.queue_len() > 0 {
        heads.push(store.queue.peek().unwrap().name.clone());
        assert_eq!(store.tick_at(now), Ok(()));
        now += 1;
    }
    assert_eq!(heads, vec!["first", "second", "third", "fourth"]);
    assert_eq!(
        store.blenders,
        vec![
            Blender { speed: 1, state: Some((0, 11)) },
            Blender { speed: 1, state: Some((1, 22)) },
            Blender { speed: 1, state: Some((2, 33)) },
            Blender { speed: 1, state: Some((3, 44)) },
        ]
    );
}

#[test]
fn backpressure_with_one_blender_and_two_orders() {
    let mut store = Store::new(vec![Blender::new(1200)]);
    store.submit(order("Jahred", &[9000, 1000]));
    store.submit(order("Tadhg", &[9000, 9000]));
    assert_eq!(store.tick_at(10), Ok(()));
    assert_eq!(store.queue_len(), 1);
    assert_eq!(store.unit_status_at(0, 10), Some(BlenderStatus::Busy(7)));
    assert_eq!(store.tick_at(10), Ok(()));
    assert_eq!(store.tick_at(13), Ok(()));
    assert_eq!(store.tick_at(16), Ok(()));
    assert_eq!(store.queue_len(), 1);
    assert_eq!(store.queue.peek().unwrap().name, "Tadhg");
    assert_eq!(store.blenders, vec![Blender { speed: 1200, state: Some((10, 7)) }]);
    assert_eq!(store.unit_status_at(0, 16), Some(BlenderStatus::Busy(1)));
    assert_eq!(store.tick_at(17), Ok(()));
    assert_eq!(store.queue_len(), 0);
    assert_eq!(store.blenders, vec![Blender { speed: 1200, state: Some((17, 14)) }]);
}

#[test]
fn all_blenders_busy_means_no_dispatch() {
    let mut store = Store::new(vec![
        Blender { speed: 5, state: Some((0, 100)) },
        Blender { speed: 6, state: Some((50, 100)) },
    ]);
    store.submit(order("waits", &[10]));
    assert_eq!(store.tick_at(60), Ok(()));
    assert_eq!(store.queue_len(), 1);
    assert_eq!(
        store.blenders,
        vec![
            Blender { speed: 5, state: Some((0, 100)) },
            Blender { speed: 6, state: Some((50, 100)) },
        ]
    );
}

#[test]
fn the_lowest_free_blender_is_chosen() {
    let mut store = Store::new(vec![
        Blender { speed: 5, state: Some((0, 100)) },
        Blender::new(10),
        Blender::new(20),
    ]);
    assert_eq!(store.get_available_blender(60), Some(1));
    store.submit(order("x", &[100]));
    assert_eq!(store.tick_at(60), Ok(()));
    assert_eq!(store.blenders[1], Blender { speed: 10, state: Some((60, 10)) });
    assert_eq!(store.blenders[2], Blender::new(20));
    assert_eq!(store.get_available_blender(60), Some(2));
    assert_eq!(store.get_available_blender(100), Some(0));
}

#[test]
fn get_available_blender_finds_none_when_all_are_busy() {
    let store = Store::new(vec![
        Blender { speed: 5, state: Some((0, 100)) },
        Blender { speed: 5, state: Some((10, 100)) },
    ]);
    assert_eq!(store.get_available_blender(50), None);
    assert_eq!(store.get_available_blender(99), None);
    assert_eq!(store.get_available_blender(100), Some(0));
    assert_eq!(Store::new(Vec::new()).get_available_blender(0), None);
}

#[test]
fn a_store_without_blenders_keeps_its_orders() {
    let mut store = Store::new(Vec::new());
    store.submit(order("nobody serves", &[1]));
    assert_eq!(store.tick_at(0), Ok(()));
    assert_eq!(store.tick_at(1000), Ok(()));
    assert_eq!(store.queue_len(), 1);
}

#[test]
fn clean_blenders_reclaims_expired_windows_only() {
    let mut store = Store::new(vec![
        Blender { speed: 1, state: Some((0, 10)) },
        Blender { speed: 2, state: Some((5, 10)) },
        Blender { speed: 3, state: Some((7, 0)) },
        Blender::new(4),
    ]);
    store.submit(order("stays", &[1]));
    store.clean_blenders(10);
    assert_eq!(
        store.blenders,
        vec![
            Blender::new(1),
            Blender { speed: 2, state: Some((5, 10)) },
            Blender { speed: 3, state: Some((7, 0)) },
            Blender::new(4),
        ]
    );
    assert_eq!(store.queue_len(), 1);
    store.clean_blenders(10);
    assert_eq!(store.blenders[0], Blender::new(1));
    assert_eq!(store.blenders[1], Blender { speed: 2, state: Some((5, 10)) });
}

#[test]
fn reclaim_runs_before_dispatch_within_one_tick() {
    let mut store = Store::new(vec![Blender { speed: 1000, state: Some((0, 4)) }]);
    store.submit(order("next", &[3000]));
    assert_eq!(store.tick_at(4), Ok(()));
    assert_eq!(store.queue_len(), 0);
    assert_eq!(store.blenders, vec![Blender { speed: 1000, state: Some((4, 3)) }]);
}

#[test]
fn reclaim_runs_with_an_empty_queue() {
    let mut store = Store::new(vec![
        Blender { speed: 1000, state: Some((0, 4)) },
        Blender { speed: 1000, state: Some((0, 40)) },
    ]);
    assert_eq!(store.tick_at(20), Ok(()));
    assert_eq!(
        store.blenders,
        vec![Blender::new(1000), Blender { speed: 1000, state: Some((0, 40)) }]
    );
}

#[test]
fn process_orders_alone_does_not_reclaim() {
    let mut store = Store::new(vec![
        Blender { speed: 1000, state: Some((0, 4)) },
        Blender { speed: 1000, state: Some((0, 9)) },
    ]);
    store.submit(order("next", &[5000]));
    assert_eq!(store.process_orders(9), Ok(()));
    assert_eq!(
        store.blenders,
        vec![
            Blender { speed: 1000, state: Some((9, 5)) },
            Blender { speed: 1000, state: Some((0, 9)) },
        ]
    );
    assert_eq!(store.queue_len(), 0);
    assert_eq!(store.process_orders(9), Ok(()));
    assert_eq!(store.queue_len(), 0);
}

#[test]
fn zero_speed_fails_the_tick_and_keeps_the_order() {
    let mut store = Store::new(vec![Blender::new(0), Blender::new(1200)]);
    store.submit(order("Jahred", &[9000, 1000]));
    store.submit(order("Tadhg", &[9000]));
    assert_eq!(store.tick_at(1), Err(StoreError::InvalidCapacity));
    assert_eq!(store.queue_len(), 2);
    assert_eq!(store.queue.peek().unwrap().name, "Jahred");
    assert_eq!(store.blenders, vec![Blender::new(0), Blender::new(1200)]);
    assert_eq!(store.tick_at(2), Err(StoreError::InvalidCapacity));
    assert_eq!(store.queue_len(), 2);
}

#[test]
fn a_failed_tick_has_still_reclaimed() {
    let mut store = Store::new(vec![
        Blender { speed: 0, state: Some((0, 3)) },
        Blender { speed: 9, state: Some((0, 2)) },
    ]);
    store.submit(order("stuck", &[90]));
    assert_eq!(store.tick_at(5), Err(StoreError::InvalidCapacity));
    assert_eq!(store.blenders, vec![Blender::new(0), Blender::new(9)]);
    assert_eq!(store.queue_len(), 1);
}

#[test]
fn a_zero_speed_blender_behind_a_free_one_does_no_harm() {
    let mut store = Store::new(vec![Blender::new(1200), Blender::new(0)]);
    store.submit(order("Jahred", &[9000, 1000]));
    assert_eq!(store.tick_at(1), Ok(()));
    assert_eq!(store.queue_len(), 0);
    assert_eq!(store.tick_at(2), Ok(()));
}

#[test]
fn an_order_that_takes_no_time_leaves_the_blender_free() {
    let mut store = Store::new(vec![Blender::new(2000)]);
    store.submit(order("quick", &[1000]));
    store.submit(order("slow", &[4000]));
    assert_eq!(store.tick_at(3), Ok(()));
    assert_eq!(store.blenders, vec![Blender { speed: 2000, state: Some((3, 0)) }]);
    assert_eq!(store.unit_status_at(0, 3), Some(BlenderStatus::Idle));
    assert_eq!(store.tick_at(3), Ok(()));
    assert_eq!(store.blenders, vec![Blender { speed: 2000, state: Some((3, 2)) }]);
    assert_eq!(store.queue_len(), 0);
}

#[test]
fn no_order_is_lost_over_a_run_of_ticks() {
    let mut store = Store::new(vec![Blender::new(1000), Blender::new(500)]);
    let total = 6;
    for i in 0..total {
        store.submit(order(&format!("o{}", i), &[3000]));
    }
    let mut served = 0;
    let mut now = 0;
    while now < 40 {
        let before = store.queue_len();
        assert_eq!(store.tick_at(now), Ok(()));
        let after = store.queue_len();
        assert!(after == before || after + 1 == before);
        served += before - after;
        assert_eq!(served + store.queue_len(), total);
        now += 1;
    }
    assert_eq!(store.queue_len(), 0);
    assert_eq!(served, total);
}

#[test]
fn ticks_at_irregular_instants() {
    let mut store = Store::new(vec![Blender::new(1200)]);
    store.submit(order("a", &[9000, 1000]));
    store.submit(order("b", &[1200]));
    assert_eq!(store.tick_at(0), Ok(()));
    assert_eq!(store.tick_at(1_000_000), Ok(()));
    assert_eq!(store.queue_len(), 0);
    assert_eq!(store.blenders, vec![Blender { speed: 1200, state: Some((1_000_000, 1)) }]);
    assert_eq!(store.tick_at(u64::MAX), Ok(()));
    assert_eq!(store.blenders, vec![Blender::new(1200)]);
}

#[test]
fn unit_status_at_reports_each_blender() {
    let store = Store::new(vec![Blender { speed: 5, state: Some((10, 5)) }, Blender::new(6)]);
    assert_eq!(store.unit_status_at(0, 12), Some(BlenderStatus::Busy(3)));
    assert_eq!(store.unit_status_at(0, 15), Some(BlenderStatus::Idle));
    assert_eq!(store.unit_status_at(1, 12), Some(BlenderStatus::Idle));
    assert_eq!(store.unit_status_at(2, 12), None);
    assert_eq!(store.unit_status_at(usize::MAX, 12), None);
}

#[test]
fn tick_by_the_clock_dispatches_and_then_holds_back() {
    let mut store = Store::new(vec![Blender::new(1)]);
    store.submit(order("long", &[4_000_000]));
    store.submit(order("waits", &[1]));
    assert_eq!(store.tick(), Ok(()));
    assert_eq!(store.queue_len(), 1);
    assert_eq!(store.queue.peek().unwrap().name, "waits");
    assert_eq!(store.blenders[0].speed, 1);
    match store.blenders[0].state {
        Some((_, duration)) => assert_eq!(duration, 4_000_000),
        None => panic!("the blender holds no window"),
    }
    assert_eq!(store.tick(), Ok(()));
    assert_eq!(store.queue_len(), 1);
    assert!(matches!(store.unit_status(0), Some(BlenderStatus::Busy(_))));
    assert_eq!(store.unit_status(1), None);
}

#[test]
fn tick_by_the_clock_reports_a_zero_speed() {
    let mut store = Store::new(vec![Blender::new(0)]);
    store.submit(order("stuck", &[1]));
    assert_eq!(store.tick(), Err(StoreError::InvalidCapacity));
    assert_eq!(store.queue_len(), 1);
    assert_eq!(store.unit_status(0), Some(BlenderStatus::Idle));
}

#[test]
fn waiting_blending_and_done_add_up() {
    let mut store = Store::new(vec![Blender::new(1000), Blender::new(1000)]);
    let costs: [u32; 5] = [3000, 1000, 0, 5000, 2000];
    for cost in costs {
        store.submit(order("o", &[cost]));
    }
    let mut windows: Vec<(u64, u128)> = Vec::new();
    let mut now = 0;
    while now < 12 {
        let before = store.blenders.clone();
        assert_eq!(store.tick_at(now), Ok(()));
        for index in 0..store.blenders.len() {
            if let Some(window) = store.blenders[index].state {
                if before[index].state != Some(window) {
                    windows.push(window);
                }
            }
        }
        let mut blending = 0;
        let mut done = 0;
        for (started_at, duration) in &windows {
            if ((now - started_at) as u128) < *duration {
                blending += 1;
            } else {
                done += 1;
            }
        }
        let mut busy = 0;
        for index in 0..store.blenders.len() {
            if store.blenders[index].is_active(now) {
                busy += 1;
            }
        }
        assert_eq!(busy, blending);
        assert_eq!(store.queue_len() + blending + done, costs.len());
        now += 1;
    }
    assert_eq!(store.queue_len(), 0);
    assert_eq!(windows, vec![(0, 3), (1, 1), (2, 0), (3, 5), (4, 2)]);
}
