use vote_processor::{is_float_literal, BalanceParseError, ChunkBuckets, VoteData, WasmVoteProcessor};

fn vote(balance: &str, approved: i32, voter: &str) -> VoteData {
    VoteData { balance: balance.to_string(), approved, voter: voter.to_string() }
}

fn total(balances: &[String]) -> f64 {
    balances.iter().map(|b| b.parse::<f64>().unwrap()).sum()
}

fn run(votes: Vec<VoteData>) -> Result<ChunkBuckets, BalanceParseError> {
    WasmVoteProcessor::new().aggregate(&votes)
}

fn sorted(mut v: Vec<String>) -> Vec<String> {
    v.sort();
    v
}

#[test]
fn new_sets_default_chunk_size() {
    assert_eq!(WasmVoteProcessor::new().chunk_size, 100000);
}

#[test]
fn empty_chunk_gives_zero_totals_and_no_voters() {
    let b = run(vec![]).ok().unwrap();
    assert!(b.approved.is_empty());
    assert!(b.rejected.is_empty());
    assert!(b.voters.is_empty());
    assert_eq!(total(&b.approved), 0.0);
    assert_eq!(total(&b.rejected), 0.0);
}

#[test]
fn concrete_scenario() {
    let b = run(vec![vote("10.5", 1, "a"), vote("5", 0, "b"), vote("2", 1, "a")]).ok().unwrap();
    assert_eq!(b.approved, vec!["10.5".to_string(), "2".to_string()]);
    assert_eq!(b.rejected, vec!["5".to_string()]);
    assert_eq!(total(&b.approved), 12.5);
    assert_eq!(total(&b.rejected), 5.0);
    assert_eq!(sorted(b.voters), vec!["a".to_string(), "b".to_string()]);
}

#[test]
fn concrete_failure_scenario() {
    let e = run(vec![vote("abc", 1, "x")]).err().unwrap();
    assert_eq!(e.voter, "x");
    assert_eq!(e.balance, "abc");
    assert!(e.message().contains("x"));
    assert_eq!(e.message(), "Balance parse error for voter x: invalid float literal \"abc\"");
}

#[test]
fn failure_names_first_offender_and_drops_everything() {
    let e = run(vec![
        vote("1", 1, "ok"),
        vote("1..2", 0, "first"),
        vote("zz", 1, "second"),
    ])
    .err()
    .unwrap();
    assert_eq!(e.voter, "first");
    assert_eq!(e.balance, "1..2");
}

#[test]
fn empty_balance_is_rejected() {
    let e = run(vec![vote("", 1, "y")]).err().unwrap();
    assert_eq!(e.voter, "y");
    assert_eq!(e.balance, "");
}

#[test]
fn conservation_of_balances() {
    let votes = vec![
        vote("1.25", 3, "p"),
        vote("-2", -1, "q"),
        vote("4e2", 0, "r"),
        vote(".5", 7, "s"),
    ];
    let all: f64 = votes.iter().map(|v| v.balance.parse::<f64>().unwrap()).sum();
    let b = run(votes).ok().unwrap();
    assert_eq!(b.approved.len() + b.rejected.len(), 4);
    let sum = total(&b.approved) + total(&b.rejected);
    assert!((sum - all).abs() <= 1e-9 * all.abs().max(1.0));
}

#[test]
fn routing_by_flag() {
    let b = run(vec![
        vote("1", 1, "a"),
        vote("2", 0, "b"),
        vote("3", -5, "c"),
        vote("4", i32::MAX, "d"),
        vote("5", i32::MIN, "e"),
    ])
    .ok()
    .unwrap();
    assert_eq!(b.approved, vec!["1".to_string(), "4".to_string()]);
    assert_eq!(b.rejected, vec!["2".to_string(), "3".to_string(), "5".to_string()]);
}

#[test]
fn voters_deduplicated_regardless_of_order() {
    let b1 = run(vec![vote("1", 1, "b"), vote("1", 0, "a"), vote("1", 1, "b"), vote("1", 1, "c"), vote("1", 0, "a")])
        .ok()
        .unwrap();
    let b2 = run(vec![vote("1", 1, "a"), vote("1", 0, "c"), vote("1", 1, "b"), vote("1", 1, "a")]).ok().unwrap();
    let want = vec!["a".to_string(), "b".to_string(), "c".to_string()];
    assert_eq!(sorted(b1.voters), want);
    assert_eq!(sorted(b2.voters), want);
}

#[test]
fn same_voter_many_times_appears_once() {
    let votes: Vec<VoteData> = (0..50).map(|i| vote("1", i % 2, "same")).collect();
    let b = run(votes).ok().unwrap();
    assert_eq!(b.voters, vec!["same".to_string()]);
}

#[test]
fn literal_grammar_accepts_float_syntax() {
    for s in ["0", "10.5", "5.", ".5", "+3", "-2.5", "1e10", "1E-3", "2.5e+7", "1.e5", "inf", "-Infinity", "NaN", "+nan", "INF"] {
        assert!(is_float_literal(s), "{}", s);
        assert!(s.parse::<f64>().is_ok(), "{}", s);
    }
}

#[test]
fn literal_grammar_rejects_non_literals() {
    for s in ["", "abc", ".", "+", "-", "e5", "1e", "1e+", "1.2.3", "++1", " 1", "1 ", "0x10", "1_000", "infin", "nana", "1,5", "١"] {
        assert!(!is_float_literal(s), "{}", s);
        assert!(s.parse::<f64>().is_err(), "{}", s);
    }
}
