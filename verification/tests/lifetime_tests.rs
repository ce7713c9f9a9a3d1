use std::collections::BTreeMap;

use order_event_dispatcher::lifetime::{
    first_word, first_word2, largest, max_ref, parse_nonempty, MyError, Order, OrderBook,
};

#[derive(Clone, Copy)]
struct Point {
    x: i32,
    y: i32,
}

#[test]
fn test_struct_close_copy() {
    let p1 = Point { x: 1, y: 2 };
    let p2 = p1;

    println!("{}", p1.x);
    println!("{}", p2.x);
    println!("{}", p1.y);
}

#[test]
fn test_largest() {
    assert_eq!(largest(&[1, 2, 3, 4]), &4);

    let mut map = BTreeMap::new();

    map.insert(1, "hello");
    map.insert(2, "world");
    map.insert(3, "rust");
    println!("{:?}", map.last_key_value().unwrap());
    let _result = map.last_key_value().unwrap();
}

#[test]
fn test_first_word() {
    let mut s = "hello world".to_string();
    let word = first_word(&s);
    s.clear();
    println!("the first word is at index: {}", word);
    assert_eq!(word, 5);
}

#[test]
fn test_first_word2() {
    let s = "hello world".to_string();

    let word = first_word2(&s);

    println!("the first word is at index: {}", word);
    assert_eq!(word, "hello");
}

#[test]
fn first_words_without_space_and_multibyte() {
    assert_eq!(first_word("rust"), 4);
    assert_eq!(first_word2("rust"), "rust");
    assert_eq!(first_word(""), 0);
    assert_eq!(first_word2(""), "");
    assert_eq!(first_word("héllo wörld"), 6);
    assert_eq!(first_word2("héllo wörld"), "héllo");
    assert_eq!(first_word2("héllo wörld").len(), first_word("héllo wörld"));
    assert_eq!(first_word(" lead"), 0);
    assert_eq!(first_word2(" lead"), "");
}

#[test]
fn parse_nonempty_cases() {
    assert_eq!(parse_nonempty(""), Err(MyError::Empty));
    assert_eq!(parse_nonempty("42"), Ok(42));
    assert_eq!(parse_nonempty("-17"), Ok(-17));
    assert_eq!(parse_nonempty("+5"), Ok(5));
    assert_eq!(parse_nonempty("-0"), Ok(0));
    assert_eq!(parse_nonempty("2147483647"), Ok(i32::MAX));
    assert_eq!(parse_nonempty("-2147483648"), Ok(i32::MIN));
    assert_eq!(parse_nonempty("2147483648"), Err(MyError::ParseFailed));
    assert_eq!(parse_nonempty("abc"), Err(MyError::ParseFailed));
    assert_eq!(parse_nonempty("12a"), Err(MyError::ParseFailed));
    assert_eq!(parse_nonempty("-"), Err(MyError::ParseFailed));
    assert_eq!(parse_nonempty(" 1"), Err(MyError::ParseFailed));
}

#[test]
fn max_ref_cases() {
    let empty: [i32; 0] = [];
    assert_eq!(max_ref(&empty), None);
    assert_eq!(max_ref(&[3, 9, 2, 9]), Some(&9));
    assert_eq!(max_ref(&["b", "a", "c"]), Some(&"c"));
    assert_eq!(largest(&[7]), &7);
    assert_eq!(largest(&[-1, -5, -3]), &-1);
}

#[test]
fn best_bid_is_highest_price() {
    let mut book = OrderBook { bids: BTreeMap::new() };
    assert!(book.best_bid().is_none());
    book.bids.insert(100, Order { id: 1, price: 100, qty: 5 });
    book.bids.insert(105, Order { id: 2, price: 105, qty: 1 });
    book.bids.insert(99, Order { id: 3, price: 99, qty: 7 });
    let best = book.best_bid().expect("there are bids");
    assert_eq!((best.id, best.price, best.qty), (2, 105, 1));
}

#[test]
fn parse_reads_back_decimal_text() {
    for n in [0, 7, -7, 42, -100, i32::MAX, i32::MIN] {
        assert_eq!(parse_nonempty(&n.to_string()), Ok(n));
    }
}

/// Ordered by `key` alone, so that equal keys can be told apart by `tag`.
#[derive(Debug, PartialEq)]
struct Keyed {
    key: i32,
    tag: char,
}

impl PartialOrd for Keyed {
    fn partial_cmp(&self, other: &Keyed) -> Option<std::cmp::Ordering> {
        self.key.partial_cmp(&other.key)
    }
}

#[test]
fn largest_keeps_the_first_maximum() {
    let list = [
        Keyed { key: 3, tag: 'a' },
        Keyed { key: 9, tag: 'b' },
        Keyed { key: 2, tag: 'c' },
        Keyed { key: 9, tag: 'd' },
    ];
    assert_eq!(largest(&list).tag, 'b');
    assert_eq!(max_ref(&list).map(|k| k.tag), Some('b'));
}

#[test]
fn max_ref_agrees_with_largest() {
    let list = [4, 11, -2, 11, 7];
    assert_eq!(max_ref(&list), Some(largest(&list)));
    assert!(std::ptr::eq(max_ref(&list).unwrap(), largest(&list)));
}
