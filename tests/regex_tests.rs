use fsm_regex::{CompileFault, FaultKind, FsmAction, FsmColumn, Move, Regex};

fn compiled(pattern: &str) -> Regex {
    Regex::compile(pattern).expect("pattern compiles")
}

fn act(next: usize, step: Move) -> FsmAction {
    FsmAction { next, step }
}

#[test]
fn wildcard_then_literals_matches_prefixes() {
    let re = compiled(".bc");
    assert!(!re.match_str("Hello"));
    assert!(re.match_str("abc"));
    assert!(re.match_str("abcde"));
    assert!(!re.match_str("bca"));
}

#[test]
fn star_then_anchored_literals() {
    let re = compiled("a*bc$");
    assert!(re.match_str("aaaaaaaaaaaabc"));
    assert!(re.match_str("bc"));
    assert!(!re.match_str("aabcd"));
    assert!(!re.match_str("aab"));
}

#[test]
fn long_anchored_literal_needs_whole_input() {
    let re = compiled("abcdefghijk$");
    assert!(!re.match_str("Hello"));
    assert!(!re.match_str("abc"));
    assert!(!re.match_str("abcde"));
    assert!(re.match_str("abcdefghijk"));
    assert!(!re.match_str("abcdefghijkl"));
}

#[test]
fn leading_quantifier_is_a_fault() {
    let r = Regex::compile("*ab");
    assert_eq!(
        r.err(),
        Some(CompileFault { kind: FaultKind::MisplacedQuantifier, pos: 0 })
    );
    let r = Regex::compile("+");
    assert_eq!(
        r.err(),
        Some(CompileFault { kind: FaultKind::MisplacedQuantifier, pos: 0 })
    );
}

#[test]
fn stacked_quantifiers_are_faults() {
    for p in ["a**", "a+*", "a*+", "a++"] {
        let r = Regex::compile(p);
        assert_eq!(
            r.err(),
            Some(CompileFault { kind: FaultKind::MisplacedQuantifier, pos: 2 }),
            "{}",
            p
        );
    }
}

#[test]
fn quantifier_after_anchor_is_a_fault() {
    assert_eq!(
        Regex::compile("$*").err(),
        Some(CompileFault { kind: FaultKind::MisplacedQuantifier, pos: 1 })
    );
    assert_eq!(
        Regex::compile("ab$+").err(),
        Some(CompileFault { kind: FaultKind::MisplacedQuantifier, pos: 3 })
    );
}

#[test]
fn symbol_outside_alphabet_is_a_fault() {
    assert_eq!(
        Regex::compile("é").err(),
        Some(CompileFault { kind: FaultKind::UnsupportedSymbol, pos: 0 })
    );
    assert_eq!(
        Regex::compile("ab€c").err(),
        Some(CompileFault { kind: FaultKind::UnsupportedSymbol, pos: 2 })
    );
    assert_eq!(
        Regex::compile("*é").err(),
        Some(CompileFault { kind: FaultKind::MisplacedQuantifier, pos: 0 })
    );
}

#[test]
fn literal_pattern_is_prefix_match() {
    let re = compiled("ab");
    assert!(re.match_str("ab"));
    assert!(re.match_str("abzzz"));
    assert!(!re.match_str("a"));
    assert!(!re.match_str(""));
    assert!(!re.match_str("ba"));
    assert!(!re.match_str("xab"));
}

#[test]
fn anchored_literal_is_full_match() {
    let re = compiled("ab$");
    assert!(re.match_str("ab"));
    assert!(!re.match_str("abc"));
    assert!(!re.match_str("a"));
    assert!(!re.match_str(""));
}

#[test]
fn empty_pattern_matches_everything() {
    let re = compiled("");
    assert!(re.match_str(""));
    assert!(re.match_str("xyz"));
    let anchored = compiled("$");
    assert!(anchored.match_str(""));
    assert!(!anchored.match_str("x"));
}

#[test]
fn wildcard_range_bounds() {
    let re = compiled(".");
    assert!(!re.match_str(""));
    assert!(!re.match_str(" "));
    assert!(re.match_str("!"));
    assert!(re.match_str("~"));
    assert!(re.match_str("A"));
    assert!(!re.match_str("\u{7f}"));
    assert!(!re.match_str("\t"));
    assert!(!re.match_str("é"));
    assert!(!re.match_str("\u{81}"));
}

#[test]
fn star_takes_zero_or_more() {
    let re = compiled("a*b");
    assert!(re.match_str("b"));
    assert!(re.match_str("ab"));
    assert!(re.match_str("aaaab"));
    assert!(!re.match_str("aaaa"));
    assert!(!re.match_str("c"));
    let alone = compiled("a*");
    assert!(alone.match_str(""));
    assert!(alone.match_str("aaa"));
    assert!(alone.match_str("bbb"));
}

#[test]
fn plus_takes_one_or_more() {
    let re = compiled("a+b");
    assert!(!re.match_str("b"));
    assert!(re.match_str("ab"));
    assert!(re.match_str("aaab"));
    assert!(!re.match_str("aaa"));
    let alone = compiled("a+");
    assert!(!alone.match_str(""));
    assert!(alone.match_str("a"));
    assert!(alone.match_str("aaab"));
    assert!(!alone.match_str("b"));
}

#[test]
fn star_never_backtracks() {
    let re = compiled("a*a");
    assert!(!re.match_str("aaa"));
    assert!(!re.match_str("a"));
    assert!(!re.match_str(""));
    let wild = compiled(".*bc");
    assert!(!wild.match_str("abc"));
}

#[test]
fn plus_never_backtracks() {
    let re = compiled("a+a");
    assert!(!re.match_str("aa"));
    assert!(!re.match_str("aaaa"));
}

#[test]
fn quantifier_right_before_anchor_never_settles() {
    let star = compiled("a*$");
    assert!(!star.match_str("aa"));
    assert!(!star.match_str(""));
    let plus = compiled("a+$");
    assert!(!plus.match_str("a"));
}

#[test]
fn input_outside_alphabet_fails() {
    assert!(!compiled("a*").match_str("é"));
    assert!(!compiled("a").match_str("éa"));
    assert!(compiled("a").match_str("aé"));
}

#[test]
fn compiling_twice_gives_equal_dumps() {
    for p in [".bc", "a*bc$", "abcdefghijk$", "x+.y*z", ""] {
        let a = compiled(p).dump();
        let b = compiled(p).dump();
        assert_eq!(a, b, "{}", p);
    }
}

#[test]
fn dump_of_literals() {
    let d = compiled("ab").dump();
    assert_eq!(d.len(), 130);
    assert!(d.iter().all(|row| row.len() == 3));
    assert_eq!(d['a' as usize][1], act(2, Move::Consume));
    assert_eq!(d['b' as usize][2], act(3, Move::Consume));
    assert_eq!(d['b' as usize][1], act(0, Move::Consume));
    assert_eq!(d[129][1], act(0, Move::Consume));
}

#[test]
fn dump_of_star_and_plus() {
    let d = compiled("a*").dump();
    assert!(d.iter().all(|row| row.len() == 2));
    assert_eq!(d['a' as usize][1], act(1, Move::Consume));
    assert_eq!(d['b' as usize][1], act(2, Move::Epsilon));
    assert_eq!(d[129][1], act(2, Move::Epsilon));

    let d = compiled("a+").dump();
    assert!(d.iter().all(|row| row.len() == 3));
    assert_eq!(d['a' as usize][1], act(2, Move::Consume));
    assert_eq!(d['b' as usize][1], act(0, Move::Consume));
    assert_eq!(d['a' as usize][2], act(2, Move::Consume));
    assert_eq!(d['b' as usize][2], act(3, Move::Epsilon));
}

#[test]
fn dump_of_wildcard_and_anchor() {
    let d = compiled(".$").dump();
    assert_eq!(d[32][1], act(0, Move::Consume));
    assert_eq!(d[33][1], act(2, Move::Consume));
    assert_eq!(d[126][1], act(2, Move::Consume));
    assert_eq!(d[127][1], act(0, Move::Consume));
    assert_eq!(d[129][1], act(0, Move::Consume));
    assert_eq!(d[129][2], act(3, Move::Consume));
    assert_eq!(d['a' as usize][2], act(0, Move::Consume));
}

#[test]
fn new_column_fails_everywhere() {
    let col = FsmColumn::new();
    for sym in [0usize, 33, 97, 127, 128, 129] {
        assert_eq!(col.action(sym), act(0, Move::Consume));
    }
    assert_eq!(col.lookup('a'), act(0, Move::Consume));
    assert_eq!(col.lookup('é'), act(0, Move::Consume));
}

#[test]
fn unit_column_moves_on_accepted_symbols() {
    let col = FsmColumn::unit_of('.', 7);
    assert_eq!(col.lookup('x'), act(7, Move::Consume));
    assert_eq!(col.lookup(' '), act(0, Move::Consume));
    assert!(col.is_unit_shaped(7));
    assert!(!col.is_unit_shaped(6));
    let anchor = FsmColumn::anchor_of(4);
    assert!(!anchor.is_unit_shaped(4));
    assert_eq!(anchor.action(129), act(4, Move::Consume));
}
