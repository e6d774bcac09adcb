use shrug::config::{Alias, Config};
use shrug::order::key_less;
use shrug::ranking::{key_score, order_by_rank, rank, ScoredAlias};

fn alias(key: &str, value: &str) -> Alias {
    Alias::new(key.to_string(), value.to_string())
}

fn keys(r: &[ScoredAlias]) -> Vec<String> {
    r.iter().map(|s| s.alias.key.clone()).collect()
}

#[test]
fn exact_key_ranks_first_with_positive_score() {
    let aliases = vec![alias("gmail", "me@example.com"), alias("gh", "https://github.com")];
    let r = rank("gh", &aliases);
    assert_eq!(r.len(), 2);
    assert_eq!(r[0].alias.key, "gh");
    assert_eq!(r[0].alias.value, "https://github.com");
    assert!(r[0].score > 0);
    assert_eq!(r[1].alias.key, "gmail");
    assert!(r[1].score < r[0].score);
    assert_eq!(r[1].score, 0);
}

#[test]
fn equal_scores_order_by_ascending_key() {
    let aliases = vec![alias("zeta", "v1"), alias("alpha", "v2")];
    let r = rank("xyz", &aliases);
    assert_eq!(keys(&r), vec!["alpha", "zeta"]);
    assert_eq!(r[0].score, 0);
    assert_eq!(r[1].score, 0);
    assert_eq!(r[0].alias.value, "v2");
}

#[test]
fn empty_query_gives_every_alias_zero() {
    let aliases = vec![alias("b", "2"), alias("a", "1"), alias("some thing", "3")];
    let r = rank("", &aliases);
    assert_eq!(keys(&r), vec!["a", "b", "some thing"]);
    assert!(r.iter().all(|s| s.score == 0));
}

#[test]
fn every_alias_is_kept_once() {
    let aliases = vec![alias("gh", "1"), alias("gmail", "2"), alias("zzz", "3"), alias("ghost", "4")];
    let r = rank("gh", &aliases);
    assert_eq!(r.len(), aliases.len());
    for a in &aliases {
        let n = r.iter().filter(|s| s.alias.key == a.key && s.alias.value == a.value).count();
        assert_eq!(n, 1);
    }
}

#[test]
fn ranking_twice_gives_the_same_order() {
    let aliases = vec![alias("gh", "1"), alias("gmail", "2"), alias("ghost", "3"), alias("x", "4")];
    let a = rank("gh", &aliases);
    let b = rank("gh", &aliases);
    assert_eq!(keys(&a), keys(&b));
    let sa: Vec<i64> = a.iter().map(|s| s.score).collect();
    let sb: Vec<i64> = b.iter().map(|s| s.score).collect();
    assert_eq!(sa, sb);
}

#[test]
fn exact_key_scores_at_least_a_non_match() {
    let aliases = vec![alias("abc", "1"), alias("xyz", "2")];
    let r = rank("abc", &aliases);
    assert_eq!(r[0].alias.key, "abc");
    assert!(r[0].score >= r[1].score);
    assert_eq!(r[1].score, 0);
}

#[test]
fn no_aliases_give_no_results() {
    let aliases: Vec<Alias> = Vec::new();
    assert!(rank("q", &aliases).is_empty());
}

#[test]
fn key_score_of_match_and_non_match() {
    assert!(key_score("gh", "gh") > 0);
    assert_eq!(key_score("gh", "gmail"), 0);
    assert_eq!(key_score("", "gh"), 0);
    assert_eq!(key_score("gh", ""), 0);
}

#[test]
fn order_by_rank_is_score_then_key_then_input() {
    let entries = vec![
        ScoredAlias { alias: alias("b", "1"), score: 5 },
        ScoredAlias { alias: alias("a", "2"), score: 5 },
        ScoredAlias { alias: alias("c", "3"), score: 9 },
        ScoredAlias { alias: alias("a", "4"), score: 5 },
        ScoredAlias { alias: alias("d", "5"), score: -3 },
    ];
    let r = order_by_rank(&entries);
    let got: Vec<(String, String, i64)> =
        r.iter().map(|s| (s.alias.key.clone(), s.alias.value.clone(), s.score)).collect();
    assert_eq!(
        got,
        vec![
            ("c".to_string(), "3".to_string(), 9),
            ("a".to_string(), "2".to_string(), 5),
            ("a".to_string(), "4".to_string(), 5),
            ("b".to_string(), "1".to_string(), 5),
            ("d".to_string(), "5".to_string(), -3),
        ]
    );
}

#[test]
fn key_order_is_byte_order() {
    assert!(key_less("alpha", "zeta"));
    assert!(!key_less("zeta", "alpha"));
    assert!(key_less("ab", "abc"));
    assert!(!key_less("abc", "abc"));
    assert!(key_less("Z", "a"));
    assert!(key_less("z", "\u{e9}"));
}

#[test]
fn store_orders_keys_and_later_entries_win() {
    let config = Config::from_entries(vec![alias("gmail", "old"), alias("gh", "g"), alias("gmail", "new")]);
    assert_eq!(config.len(), 2);
    let a = config.aliases();
    assert_eq!(a[0].key, "gh");
    assert_eq!(a[0].value, "g");
    assert_eq!(a[1].key, "gmail");
    assert_eq!(a[1].value, "new");
}

#[test]
fn store_insert_keeps_keys_ascending() {
    let mut config = Config::new();
    config.insert(alias("m", "1"));
    config.insert(alias("a", "2"));
    config.insert(alias("z", "3"));
    config.insert(alias("m", "4"));
    let a = config.aliases();
    let got: Vec<(String, String)> = a.iter().map(|x| (x.key.clone(), x.value.clone())).collect();
    assert_eq!(
        got,
        vec![
            ("a".to_string(), "2".to_string()),
            ("m".to_string(), "4".to_string()),
            ("z".to_string(), "3".to_string()),
        ]
    );
}

#[test]
fn store_may_be_empty() {
    let config = Config::from_entries(Vec::new());
    assert_eq!(config.len(), 0);
    assert!(rank("x", &config.aliases()).is_empty());
}

#[test]
fn ranking_a_store() {
    let config = Config::from_entries(vec![
        alias("gmail", "me@example.com"),
        alias("gh", "https://github.com"),
    ]);
    let r = rank("gh", &config.aliases());
    assert_eq!(keys(&r), vec!["gh", "gmail"]);
    assert!(r[0].score > 0);
}

#[test]
fn negative_match_scores_are_raised_to_zero() {
    let key = format!("a{}b", " ".repeat(100));
    let s = key_score(&key, &key);
    assert_eq!(s, 0);
    let aliases = vec![alias(&key, "1"), alias("zzz", "2")];
    let r = rank(&key, &aliases);
    assert!(r.iter().all(|x| x.score >= 0));
}
