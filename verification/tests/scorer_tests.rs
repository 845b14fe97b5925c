use worksentry::roots::isqrt;
use worksentry::scorer::{
    calculate_launcher_score, length_bonus_of, score_chars, score_with_classes,
};
use worksentry::tantivy_engine::TantivyEngine;

fn chars(s: &str) -> Vec<char> {
    s.chars().collect()
}

#[test]
fn test_launcher_score() {
    let parts = vec!["7r"];
    let score = TantivyEngine::calculate_launcher_score(&parts, "7 rules of power.epub");
    assert!(score.is_some(), "Should match '7r' in '7 rules of power.epub'");
    assert!(score.unwrap() > 0);

    let parts = vec!["xyz"];
    let score = TantivyEngine::calculate_launcher_score(&parts, "7 rules of power.epub");
    assert!(score.is_none(), "Should not match 'xyz' in '7 rules of power.epub'");
}

#[test]
fn test_score_is_the_sum_of_its_bonuses() {
    // Two hits at word boundaries (20 points), first hit at the start
    // (10 points), 21 characters (100 / sqrt(21) = 21.821789 points).
    assert_eq!(calculate_launcher_score(&["7r"], "7 rules of power.epub"), Some(51_821_789));
    // Name begins with the query: 1000 points on top.
    assert_eq!(calculate_launcher_score(&["vibe"], "vibe_coding"), Some(1_056_151_134));
    // Name holds the query elsewhere: 500 points on top.
    assert_eq!(calculate_launcher_score(&["vibe"], "my_vibe"), Some(559_510_732));
    assert_eq!(calculate_launcher_score(&["pow"], "7 rules of power"), Some(542_125_000));
    // Two parts earn no bonus for the whole query.
    assert_eq!(calculate_launcher_score(&["no", "te"], "notes.txt"), Some(65_111_110));
    assert_eq!(calculate_launcher_score(&["7", "rules"], "7 rules of power"), Some(71_750_000));
}

#[test]
fn test_extension_moves_the_score() {
    assert_eq!(calculate_launcher_score(&["calc"], "calc.exe"), Some(1_561_355_339));
    assert_eq!(calculate_launcher_score(&["main"], "main.rs"), Some(1_013_796_447));
    let plain = calculate_launcher_score(&["main"], "main.md").unwrap();
    let source = calculate_launcher_score(&["main"], "main.rs").unwrap();
    let program = calculate_launcher_score(&["main"], "main.cmd").unwrap();
    assert_eq!(plain - source, 50_000_000);
    assert_eq!(program - calculate_launcher_score(&["main"], "main.txt").unwrap(), 500_000_000);
}

#[test]
fn test_score_can_be_negative_only_for_source_files() {
    let mut name = String::from("xxxxaxxxxxb");
    name.push_str(&"y".repeat(86));
    let source = format!("{}.rs", name);
    assert_eq!(source.chars().count(), 100);
    assert_eq!(calculate_launcher_score(&["ab"], &source), Some(-30_400_000));
    let other = format!("{}.md", name);
    assert!(calculate_launcher_score(&["ab"], &other).unwrap() >= 0);
}

#[test]
fn test_parts_are_matched_in_the_order_given() {
    assert_eq!(calculate_launcher_score(&["b", "a"], "ab"), None);
    assert_eq!(calculate_launcher_score(&["a", "b"], "ab"), Some(95_710_678));
    // A part that is nowhere in the name rejects every order.
    assert_eq!(calculate_launcher_score(&["a", "z"], "ab"), None);
    assert_eq!(calculate_launcher_score(&["z", "a"], "ab"), None);
    // The cursor never goes back: the second `a` is looked for behind the first.
    assert_eq!(calculate_launcher_score(&["a", "a"], "a"), None);
    assert!(calculate_launcher_score(&["a", "a"], "aa").is_some());
}

#[test]
fn test_empty_query_and_empty_parts() {
    let none: Vec<&str> = Vec::new();
    assert_eq!(calculate_launcher_score(&none, "abc"), None);
    assert_eq!(calculate_launcher_score(&["a"], ""), None);
    assert_eq!(calculate_launcher_score(&[""], "a"), Some(1_100_000_000));
    assert_eq!(score_chars(&vec![chars("")], &chars("")), Some(1_000_000_000));
}

#[test]
fn test_runs_of_adjacent_hits() {
    // "abc" in "abc": a run of two steps, 4 points.
    let together = score_chars(&vec![chars("ab"), chars("c")], &chars("abc")).unwrap();
    let apart = score_chars(&vec![chars("a"), chars("b"), chars("c")], &chars("abc")).unwrap();
    // One part "ab": boundary 10, run 2, early 10. Parts "a", "b": boundary
    // 10, early 10 and 6.666666.
    assert_eq!(together - apart, 2_000_000 - 6_666_666);
}

#[test]
fn test_length_bonus() {
    assert_eq!(length_bonus_of(0), 0);
    assert_eq!(length_bonus_of(1), 100_000_000);
    assert_eq!(length_bonus_of(4), 50_000_000);
    assert_eq!(length_bonus_of(21), 21_821_789);
    assert_eq!(length_bonus_of(100_000), 316_227);
    assert_eq!(length_bonus_of(100_001), 316_226);
    let mut last = length_bonus_of(1);
    for len in 2..2000usize {
        let bonus = length_bonus_of(len);
        assert!(bonus < last, "a name of {} characters must earn less", len);
        last = bonus;
    }
    // Far beyond the limit two lengths may earn the same.
    assert_eq!(length_bonus_of(135_975), length_bonus_of(135_976));
    assert_eq!(length_bonus_of(usize::MAX), 0);
}

#[test]
fn test_isqrt() {
    assert_eq!(isqrt(0), 0);
    assert_eq!(isqrt(1), 1);
    assert_eq!(isqrt(3), 1);
    assert_eq!(isqrt(4), 2);
    assert_eq!(isqrt(99), 9);
    assert_eq!(isqrt(100), 10);
    assert_eq!(isqrt(10_000_000_000_000_000), 100_000_000);
    assert_eq!(isqrt(u64::MAX), 4_294_967_295);
}

#[test]
fn test_score_of_a_whole_name() {
    // Prefix 1000, boundary 10, run 2, early 10, length 100 / sqrt(2).
    let parts = vec![chars("ab")];
    let score = score_with_classes(&parts, &chars("ab"), &vec![true, true], &None);
    assert_eq!(score, Some(1_092_710_678));
}

#[test]
fn test_score_for_given_classes() {
    let parts = vec![chars("ab")];
    let name = chars("xa-b");
    // With the standard library's classes: `b` follows `-`, a word boundary.
    let flags = vec![true, true, false, true];
    let with = score_with_classes(&parts, &name, &flags, &None).unwrap();
    assert_eq!(Some(with), score_chars(&parts, &name));
    // Were `-` a letter, the boundary and its 10 points would be gone.
    let letters = vec![true, true, true, true];
    let without = score_with_classes(&parts, &name, &letters, &None).unwrap();
    assert_eq!(with - without, 10_000_000);
    // Flags that end early: what lies beyond counts as no letter.
    assert_eq!(score_with_classes(&parts, &name, &vec![true, true], &None), Some(with));
    // The extension is taken as it is handed in.
    let program = score_with_classes(&parts, &name, &flags, &Some(chars("exe"))).unwrap();
    let source = score_with_classes(&parts, &name, &flags, &Some(chars("rs"))).unwrap();
    let upper = score_with_classes(&parts, &name, &flags, &Some(chars("EXE"))).unwrap();
    assert_eq!(program - with, 500_000_000);
    assert_eq!(with - source, 50_000_000);
    assert_eq!(upper, with);
}
