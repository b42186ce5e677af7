use lintel::fuzzy::{fuzzy_score, fuzzy_score_chars, try_fuzzy_score};
use lintel::index::Command;
use lintel::palette::{match_command, rank, ranked, try_ranked, MAX_RESULTS};

fn cmd(path: &[&str]) -> Command {
    Command {
        path: path.iter().map(|s| s.to_string()).collect(),
        enabled: true,
        shortcut: None,
        help: None,
    }
}

#[test]
fn subsequence_matches_and_ranks() {
    // "nw" matches "New" (n..ew) and "New Window".
    assert!(fuzzy_score("nw", "New Window").is_some());
    assert!(fuzzy_score("new", "New").is_some());
    assert!(fuzzy_score("xyz", "New").is_none());
}

#[test]
fn word_start_beats_midword() {
    // "b" at the start of "Bold" should outscore "b" inside "Table".
    let a = fuzzy_score("b", "Bold").unwrap();
    let b = fuzzy_score("b", "Table").unwrap();
    assert!(a > b, "word-start {a} should beat mid-word {b}");
}

#[test]
fn ranked_prefers_leaf_and_caps() {
    let cmds = vec![
        cmd(&["Format", "Font", "Bold"]),
        cmd(&["Edit", "Boldface toggle wrapper thing"]),
        cmd(&["View", "Sidebar"]),
    ];
    let r = ranked("bold", &cmds);
    assert_eq!(r[0].path.last().unwrap(), "Bold"); // leaf match wins
    assert!(ranked("", &cmds).len() <= MAX_RESULTS);
}

#[test]
fn points_add_up() {
    assert_eq!(fuzzy_score("b", "Bold"), Some(9));
    assert_eq!(fuzzy_score("b", "Table"), Some(1));
    assert_eq!(fuzzy_score("new", "New"), Some(21));
    assert_eq!(fuzzy_score("nw", "New Window"), Some(9));
    // A capital inside a word.
    assert_eq!(fuzzy_score("b", "aB"), Some(5));
    // Contiguous and capital.
    assert_eq!(fuzzy_score("ab", "aB"), Some(9 + 10));
    // Behind a space and behind punctuation.
    assert_eq!(fuzzy_score("w", "a w"), Some(9));
    assert_eq!(fuzzy_score("w", "a-w"), Some(9));
    // A digit is no word boundary.
    assert_eq!(fuzzy_score("w", "1w"), Some(1));
}

#[test]
fn case_does_not_matter() {
    assert_eq!(fuzzy_score("NEW", "new"), fuzzy_score("new", "new"));
    assert_eq!(fuzzy_score("É", "résumé"), Some(1));
}

#[test]
fn empty_query_matches_everything_with_nothing() {
    assert_eq!(fuzzy_score("", ""), Some(0));
    assert_eq!(fuzzy_score("", "A rather long title that would cost points"), Some(0));
    assert_eq!(fuzzy_score("a", ""), None);
}

#[test]
fn long_texts_cost_a_tenth_of_their_length() {
    assert_eq!(fuzzy_score("a", "a123456789"), Some(8));
    assert_eq!(fuzzy_score("a", "a12345678"), Some(9));
}

#[test]
fn order_counts_and_gaps_do_not() {
    assert!(fuzzy_score("wn", "New Window").is_some());
    assert!(fuzzy_score("wx", "New Window").is_none());
    assert!(fuzzy_score("ba", "ab").is_none());
    assert!(fuzzy_score("ac", "abc").is_some());
}

#[test]
fn longer_query_matches_less() {
    let text = "Enter Full Screen";
    assert!(fuzzy_score("efs", text).is_some());
    assert!(fuzzy_score("ef", text).is_some());
    assert!(fuzzy_score("e", text).is_some());
    assert!(fuzzy_score("efsx", text).is_none());
}

#[test]
fn runs_earn_more_than_scattered_hits() {
    assert!(fuzzy_score("ab", "xab").unwrap() > fuzzy_score("ab", "xacb").unwrap());
}

#[test]
fn texts_whose_lowercase_is_longer_match_too() {
    // The lowercase of the first letter has two characters, so the last hit lies behind the end.
    assert_eq!(fuzzy_score("b", "\u{130}ab"), Some(1));
    assert_eq!(fuzzy_score("a", "\u{130}a"), Some(1));
    assert_eq!(fuzzy_score("a", "\u{130}\u{130}a"), Some(1));
    assert_eq!(fuzzy_score("i", "\u{130}a"), Some(9));
    assert_eq!(fuzzy_score("x", "\u{130}a"), None);
    assert_eq!(try_fuzzy_score("b", "\u{130}ab"), Some(Some(1)));
    assert_eq!(try_fuzzy_score("x", "\u{130}ab"), Some(None));
    assert_eq!(try_fuzzy_score("new", "New"), Some(Some(21)));
}

#[test]
fn text_behind_a_match_only_costs_length() {
    let short = fuzzy_score("new", "New").unwrap();
    assert_eq!(fuzzy_score("new", "New Win"), Some(short));
    assert_eq!(fuzzy_score("new", "New Window"), Some(short - 1));
    assert_eq!(fuzzy_score("new", "New Window with news"), Some(short - 2));
}

#[test]
fn short_queries_prefer_every_leaf_match() {
    // The worst leaf match against the best path match that eight letters allow.
    let leaf = format!("xqxwxexrxtxyxuxi{}", "z".repeat(180));
    let scattered = cmd(&["Menu", &leaf]);
    let path = cmd(&["qwertyui", "none"]);
    let a = match_command("qwertyui", &scattered).unwrap();
    let b = match_command("qwertyui", &path).unwrap();
    assert!(a > b, "{a} should beat {b}");
}

#[test]
fn characters_are_scored_by_the_text_as_typed() {
    let q: Vec<char> = "ab".chars().collect();
    let t: Vec<char> = "xA b".chars().collect();
    let l: Vec<char> = "xa b".chars().collect();
    // A capital, then a word start.
    assert_eq!(fuzzy_score_chars(&q, &t, &l), Some(5 + 9));
}

#[test]
fn commands_prefer_their_own_title() {
    assert_eq!(match_command("bold", &cmd(&["Format", "Font", "Bold"])), Some(9 + 6 * 3 + 100));
    // Only the whole path matches: "fb" in "Format Font Bold".
    assert_eq!(match_command("fb", &cmd(&["Format", "Font", "Bold"])), Some(9 + 9 - 1 - 20));
    assert_eq!(match_command("zz", &cmd(&["Format", "Font", "Bold"])), None);
    assert_eq!(match_command("", &cmd(&[])), Some(100));
    assert_eq!(match_command("a", &cmd(&[])), None);
}

#[test]
fn leaf_matches_outrank_path_matches() {
    let cmds = vec![cmd(&["File", "Open"]), cmd(&["Window", "Fill"])];
    let r = ranked("fi", &cmds);
    assert_eq!(r.len(), 2);
    assert_eq!(r[0].path, vec!["Window", "Fill"]);
    assert_eq!(r[1].path, vec!["File", "Open"]);
}

#[test]
fn ranking_is_stable_and_drops_what_has_no_score() {
    assert_eq!(rank(&[Some(1), None, Some(3), Some(1), Some(3)]), vec![2, 4, 0, 3]);
    assert_eq!(rank(&[None, None]), Vec::<usize>::new());
    assert_eq!(rank(&[]), Vec::<usize>::new());
    assert_eq!(rank(&[Some(-5), Some(-4)]), vec![1, 0]);
}

#[test]
fn empty_query_lists_the_first_commands_in_menu_order() {
    let cmds: Vec<Command> = (0..20).map(|i| cmd(&["Menu", &format!("Item {i}")])).collect();
    let r = ranked("", &cmds);
    assert_eq!(r.len(), 12);
    assert_eq!(MAX_RESULTS, 12);
    for (i, c) in r.iter().enumerate() {
        assert_eq!(c.path[1], format!("Item {i}"));
    }
}

#[test]
fn no_better_command_is_left_out() {
    let mut cmds: Vec<Command> = (0..12).map(|i| cmd(&["Menu", &format!("xa{i}")])).collect();
    cmds.push(cmd(&["Menu", "Apple"]));
    let r = ranked("a", &cmds);
    assert_eq!(r.len(), 12);
    assert_eq!(r[0].path[1], "Apple");
    assert!(r.iter().all(|c| c.path[1] != "xa11"));
}

#[test]
fn tried_rankings_are_the_rankings() {
    let cmds = vec![cmd(&["Menu", "\u{130}a"]), cmd(&["Menu", "Apple"])];
    let tried = try_ranked("a", &cmds).unwrap();
    assert_eq!(tried.len(), 2);
    assert_eq!(tried[0].path[1], "Apple");
    assert_eq!(try_ranked("i", &cmds).unwrap().len(), 1);
    assert_eq!(try_ranked("bold", &[cmd(&["Bold"])]).unwrap()[0].path, vec!["Bold"]);
}

#[test]
fn ascii_text_is_lowered_letter_by_letter() {
    let all: String = (0u8..128).map(char::from).collect();
    for c in all.chars() {
        for d in all.chars() {
            let same = c.eq_ignore_ascii_case(&d);
            let matched = fuzzy_score(&c.to_string(), &d.to_string()).is_some();
            assert_eq!(matched, same, "{c:?} and {d:?}");
        }
    }
    assert!(fuzzy_score(&all.to_uppercase(), &all).is_some());
}
