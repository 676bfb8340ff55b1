//! The text of a call tree.

use reqray::display::LoggingCallTreeCollectorBuilder;
use reqray::{CallPathPool, SpanMeta};

fn meta(callsite: u64, name: &'static str) -> SpanMeta {
    SpanMeta { callsite, name, file: None, line: None }
}

const HEADER: &str = "    # calls │   ∑ alive ms │    ∑ busy ms │ ∑ own busy ms │ span tree\n";
const RULE: &str =
    "────────────┼──────────────┼──────────────┼────────────-──┼───────────────────────\n";

#[test]
fn table_of_a_tree_with_branches() {
    let mut pool = CallPathPool::new(meta(1, "request"));
    let root = pool.root_id();
    let nested = pool.call_path_below(root, meta(2, "nested"), 10).unwrap();
    let random = pool.call_path_below(nested, meta(3, "random"), 10).unwrap();
    let repeated = pool.call_path_below(root, meta(4, "repeated"), 10).unwrap();
    let deep = pool.call_path_below(random, meta(5, "deep"), 10).unwrap();
    let nested_repeated = pool.call_path_below(nested, meta(4, "repeated"), 10).unwrap();
    let last = pool.call_path_below(root, meta(6, "last"), 10).unwrap();
    let last_child = pool.call_path_below(last, meta(7, "leaf"), 10).unwrap();

    pool.fold(root, 258_910_999, 258_890_000, 106_000).unwrap();
    pool.fold(nested, 87_204_000, 87_190_000, 19_299_000).unwrap();
    pool.fold(random, 36_000, 21_000, 21_000).unwrap();
    for _ in 0..1000 {
        pool.fold(nested_repeated, 75_738, 61_912, 61_912).unwrap();
    }
    pool.fold(repeated, 51_000, 27_000, 27_000).unwrap();
    pool.fold(repeated, 0, 0, 0).unwrap();
    pool.fold(deep, 999, 999, 999).unwrap();
    pool.fold(last, 123_456_789_012_345, 99_999_999_999_999, 1_000_000).unwrap();
    pool.fold(last_child, 1, 1, 1).unwrap();

    let text = LoggingCallTreeCollectorBuilder::default().left_margin(0).build().table(&pool);
    let expected = [
        HEADER,
        RULE,
        "      0 001 ┊      258.910 ┊      258.890 ┊         0.106 ┊ ┬ request\n",
        "      0 001 ┊       87.204 ┊       87.190 ┊        19.299 ┊ ├┬ nested\n",
        "      0 001 ┊        0.036 ┊        0.021 ┊         0.021 ┊ ┊├┬ random\n",
        "      0 001 ┊        0.000 ┊        0.000 ┊         0.000 ┊ ┊┊╰─ deep\n",
        "      1 000 ┊       75.738 ┊       61.912 ┊        61.912 ┊ ┊╰─ repeated\n",
        "      0 002 ┊        0.051 ┊        0.027 ┊         0.027 ┊ ├─ repeated\n",
        "      0 001 ┊ 123456789.012 ┊ 99999999.999 ┊         1.000 ┊ ╰┬ last\n",
        "      0 001 ┊        0.000 ┊        0.000 ┊         0.000 ┊  ╰─ leaf\n",
    ]
    .concat();
    assert_eq!(text, expected, "got:\n{}", text);
}

#[test]
fn table_with_a_left_margin() {
    let mut pool = CallPathPool::new(meta(1, "root"));
    let child = pool.call_path_below(pool.root_id(), meta(2, "child"), 10).unwrap();
    pool.fold(child, 2_000_000, 1_500_000, 1_500_000).unwrap();
    pool.fold(pool.root_id(), 3_000_000, 2_000_000, 500_000).unwrap();
    let text = LoggingCallTreeCollectorBuilder::default().left_margin(3).build().table(&pool);
    let expected = [
        "   ",
        HEADER,
        "   ",
        RULE,
        "         0 001 ┊        3.000 ┊        2.000 ┊         0.500 ┊ ┬ root\n",
        "         0 001 ┊        2.000 ┊        1.500 ┊         1.500 ┊ ╰─ child\n",
    ]
    .concat();
    assert_eq!(text, expected, "got:\n{}", text);
}

#[test]
fn default_left_margin_is_twenty() {
    let pool = CallPathPool::new(meta(1, "root"));
    let text = LoggingCallTreeCollectorBuilder::default().build().table(&pool);
    let margin = " ".repeat(20);
    let expected = [
        margin.as_str(),
        HEADER,
        margin.as_str(),
        RULE,
        margin.as_str(),
        "      0 000 ┊        0.000 ┊        0.000 ┊         0.000 ┊ ─ root\n",
    ]
    .concat();
    assert_eq!(text, expected, "got:\n{}", text);
}

#[test]
fn max_call_depth_of_the_display_limits_nothing() {
    let mut pool = CallPathPool::new(meta(1, "a"));
    let b = pool.call_path_below(pool.root_id(), meta(1, "b"), 10).unwrap();
    let c = pool.call_path_below(b, meta(1, "c"), 10).unwrap();
    let _d = pool.call_path_below(c, meta(1, "d"), 10).unwrap();
    let shallow =
        LoggingCallTreeCollectorBuilder::default().max_call_depth(0).left_margin(0).build();
    let deep = LoggingCallTreeCollectorBuilder::default()
        .left_margin(0)
        .max_call_depth(usize::MAX)
        .build();
    let text = shallow.table(&pool);
    assert_eq!(text, deep.table(&pool));
    let expected = [
        HEADER,
        RULE,
        "      0 000 ┊        0.000 ┊        0.000 ┊         0.000 ┊ ┬ a\n",
        "      0 000 ┊        0.000 ┊        0.000 ┊         0.000 ┊ ╰┬ b\n",
        "      0 000 ┊        0.000 ┊        0.000 ┊         0.000 ┊  ╰┬ c\n",
        "      0 000 ┊        0.000 ┊        0.000 ┊         0.000 ┊   ╰─ d\n",
    ]
    .concat();
    assert_eq!(text, expected, "got:\n{}", text);
}

#[test]
fn call_summary_names_the_place_of_the_root_span() {
    let root = SpanMeta {
        callsite: 1,
        name: "request",
        file: Some("examples/nested.rs"),
        line: Some(51),
    };
    let mut pool = CallPathPool::new(root);
    pool.fold(pool.root_id(), 1_000, 1_000, 1_000).unwrap();
    let display = LoggingCallTreeCollectorBuilder::default().left_margin(2).build();
    let text = display.call_summary(&pool);
    let expected = [
        "Call summary of request@examples/nested.rs:51\n\n",
        display.table(&pool).as_str(),
    ]
    .concat();
    assert_eq!(text, expected, "got:\n{}", text);
    assert!(text.ends_with(" ┊ ─ request\n"), "got:\n{}", text);
}

#[test]
fn call_summary_of_a_root_span_without_a_known_place() {
    let pool = CallPathPool::new(meta(1, "anywhere"));
    let display = LoggingCallTreeCollectorBuilder::default().left_margin(0).build();
    let text = display.call_summary(&pool);
    let expected =
        ["Call summary of anywhere@unknown:0\n\n", display.table(&pool).as_str()].concat();
    assert_eq!(text, expected, "got:\n{}", text);
}

#[test]
fn calls_beyond_a_million_widen_the_column() {
    let mut pool = CallPathPool::new(meta(1, "busy"));
    // A count of calls cannot be set, so the width is shown on the times.
    pool.fold(pool.root_id(), u128::MAX, 123_456_789_000_000_000, 7_999).unwrap();
    let text = LoggingCallTreeCollectorBuilder::default().left_margin(0).build().table(&pool);
    let expected = [
        HEADER,
        RULE,
        "      0 001 ┊ 340282366920938463463374607431768.211 ┊ 123456789000.000 ┊         0.007 ┊ ─ busy\n",
    ]
    .concat();
    assert_eq!(text, expected, "got:\n{}", text);
}
