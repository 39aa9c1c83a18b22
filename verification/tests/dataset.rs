use rg35xx::cards::{CardPool, DropReason, LoadError, split_str, trim_str};
use rg35xx::fmt::{u64_to_string, usize_to_string};

#[test]
fn load_parses_words_and_taboos() {
    let pool = CardPool::load("apple, fruit , red\nbanana,yellow\n").unwrap();
    assert_eq!(pool.cards.len(), 2);
    assert_eq!(pool.cards[0].word, "apple");
    assert_eq!(pool.cards[0].taboo, vec!["fruit", "red"]);
    assert_eq!(pool.cards[1].word, "banana");
    assert_eq!(pool.cards[1].taboo, vec!["yellow"]);
}

#[test]
fn load_skips_blank_lines() {
    let pool = CardPool::load("\n  \napple,red\n\t\n\nbanana,yellow\n\n").unwrap();
    assert_eq!(pool.cards.len(), 2);
}

#[test]
fn load_dedups_first_occurrence_wins() {
    let pool = CardPool::load("apple,fruit,red\nbanana,yellow\napple,crimson").unwrap();
    let apples: Vec<_> = pool.cards.iter().filter(|c| c.word == "apple").collect();
    assert_eq!(apples.len(), 1);
    assert_eq!(apples[0].taboo, vec!["fruit", "red"]);
}

#[test]
fn load_drops_multiword_entries() {
    let pool = CardPool::load("ice cream,cold\nwell-known,famous\nplain,simple").unwrap();
    assert_eq!(pool.cards.len(), 1);
    assert_eq!(pool.cards[0].word, "plain");
    assert!(pool.cards.iter().all(|c| !c.word.contains(' ') && !c.word.contains('-')));
}

#[test]
fn load_rejects_a_missing_word_field() {
    assert!(matches!(CardPool::load("apple,red\n ,orphan"), Err(LoadError::MissingWord)));
    assert!(matches!(CardPool::load(",orphan"), Err(LoadError::MissingWord)));
    assert!(CardPool::load("").is_ok());
    assert_eq!(CardPool::load("").unwrap().cards.len(), 0);
}

#[test]
fn load_keeps_a_word_without_taboos() {
    let pool = CardPool::load("bare").unwrap();
    assert_eq!(pool.cards.len(), 1);
    assert_eq!(pool.cards[0].word, "bare");
    assert_eq!(pool.cards[0].taboo.len(), 0);
}

#[test]
fn trim_removes_surrounding_whitespace() {
    assert_eq!(trim_str("  hi there \t"), "hi there");
    assert_eq!(trim_str(""), "");
    assert_eq!(trim_str(" \t \r\n"), "");
    assert_eq!(trim_str("solid"), "solid");
}

#[test]
fn split_keeps_empty_pieces() {
    assert_eq!(split_str("a,b,,c", ','), vec!["a", "b", "", "c"]);
    assert_eq!(split_str("", ','), vec![""]);
    assert_eq!(split_str("lone", ','), vec!["lone"]);
    assert_eq!(split_str(",", ','), vec!["", ""]);
}

#[test]
fn decimal_formatting() {
    assert_eq!(usize_to_string(0), "0");
    assert_eq!(usize_to_string(7), "7");
    assert_eq!(usize_to_string(907), "907");
    assert_eq!(u64_to_string(1200300), "1200300");
}

#[test]
fn load_reports_dropped_records() {
    let (pool, drops) =
        CardPool::load_report("apple,fruit\nice cream,cold\napple,crimson\nice cream,again")
            .unwrap();
    assert_eq!(pool.cards.len(), 1);
    assert_eq!(drops.len(), 3);
    assert_eq!(drops[0].word, "ice cream");
    assert!(matches!(drops[0].reason, DropReason::MultiWord));
    assert_eq!(drops[1].word, "apple");
    assert!(matches!(drops[1].reason, DropReason::Duplicate));
    // A multi-word target never enters the pool, so its second record is
    // reported as multi-word again, not as a duplicate.
    assert_eq!(drops[2].word, "ice cream");
    assert!(matches!(drops[2].reason, DropReason::MultiWord));
}

#[test]
fn load_reports_nothing_on_a_clean_dataset() {
    let (pool, drops) = CardPool::load_report("apple,fruit\nbanana,yellow").unwrap();
    assert_eq!(pool.cards.len(), 2);
    assert!(drops.is_empty());
}
