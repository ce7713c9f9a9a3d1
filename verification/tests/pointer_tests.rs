use std::rc::Rc;

use order_event_dispatcher::delay::{Delay, DelayPoll, MainFuture, MainPoll, MAIN_DELAY_NANOS};
use order_event_dispatcher::matching::heavy_matching_logic;
use order_event_dispatcher::wide::to_wstring;

#[test]
fn test_reference() {
    let mut data = 42;

    let r1 = &data;
    let r2 = &data;

    assert_eq!(*r1, 42);
    assert_eq!(*r2, 42);

    let r_mut = &mut data;
    *r_mut = 100;

    assert_eq!(data, 100);
}

#[test]
fn test_box() {
    let mut heap_data = Box::new(42);

    *heap_data = 100;

    assert_eq!(*heap_data, 100);
}

#[test]
fn test_rc_and_get_mut() {
    let mut shared_ptr = Rc::new(42);

    if let Some(mut_ref) = Rc::get_mut(&mut shared_ptr) {
        *mut_ref = 100;
    }

    assert_eq!(*shared_ptr, 100);

    let _other_shared_ptr = Rc::clone(&shared_ptr);

    let is_none = Rc::get_mut(&mut shared_ptr).is_none();

    println!("{}", is_none);
}

#[test]
fn test_ref_magic() {
    let my_box = Some(String::from("核心机密"));

    match my_box {
        Some(ref inner_str) => {
            println!("看一眼金条 {}", inner_str);
        }

        None => {}
    }

    match &my_box {
        Some(inner_str) => {
            println!("看一眼金条 {}", inner_str);
        }
        None => {}
    }

    let mut my_opt = Some(42);

    match &mut my_opt {
        Some(val) => {
            *val += 100;
        }
        None => {}
    }

    println!("{:?}", my_opt);
}

#[test]
fn matching_reports_the_order() {
    let order_id = 888888;
    assert_eq!(heavy_matching_logic(order_id), format!("订单 {} 撮合成功 ", order_id));
    assert_eq!(heavy_matching_logic(0), "订单 0 撮合成功 ");
}

#[test]
fn wide_strings_end_with_zero() {
    assert_eq!(to_wstring(""), vec![0u16]);
    assert_eq!(to_wstring("Hi"), vec![0x48, 0x69, 0]);
    let expected: Vec<u16> = "你好😀".encode_utf16().chain(std::iter::once(0)).collect();
    assert_eq!(to_wstring("你好😀"), expected);
    assert_eq!(to_wstring("😀"), vec![0xD83D, 0xDE00, 0]);
}

#[test]
fn delay_and_main_future_steps() {
    let d = Delay { when: 100 };
    assert_eq!(d.poll_at(99), DelayPoll::WakeAt(100));
    assert_eq!(d.poll_at(100), DelayPoll::Ready);
    assert_eq!(Delay::output(), "done");

    let mut f = MainFuture::State0;
    assert_eq!(f.poll_at(5, 6), MainPoll::Pending { wake_at: 5 + MAIN_DELAY_NANOS });
    assert_eq!(f, MainFuture::State1(Delay { when: 5 + MAIN_DELAY_NANOS }));
    assert_eq!(f.poll_at(6, 7), MainPoll::Pending { wake_at: 5 + MAIN_DELAY_NANOS });
    assert_eq!(f.poll_at(5 + MAIN_DELAY_NANOS, 5 + MAIN_DELAY_NANOS), MainPoll::Ready);
    assert_eq!(f, MainFuture::Terminated);

    // The timer's own reading decides the first poll.
    let mut g = MainFuture::State0;
    assert_eq!(g.poll_at(5, 5 + MAIN_DELAY_NANOS), MainPoll::Ready);
    assert_eq!(g, MainFuture::Terminated);
}
