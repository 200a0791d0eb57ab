use llmctl::chars::{
    eq_fold, split_lines, split_words, to_ascii_lower, trim, trim_end_char, trim_start_char,
};
use llmctl::names::{cache_dir_name, hash_text, safe_component, stable_hash};
use llmctl::number::{hex_text, nat_text, padded, read_int, read_nat, signed_text};
use llmctl::order::{list_before, sort_texts, text_before};
use llmctl::path;
use llmctl::persistence::{scratch_path, write_if_changed, WriteStep};
use llmctl::table::TextMap;
use llmctl::text::{contains, find, join_all, replace, split_char};
use llmctl::url::encode;

fn texts(v: &[&str]) -> Vec<String> {
    v.iter().map(|s| s.to_string()).collect()
}

#[test]
fn texts_are_searched_and_split_as_the_standard_library_does() {
    for (s, p) in [("abcabc", "ca"), ("", ""), ("aaa", "aa"), ("x", "xy"), ("ä€b", "€")] {
        assert_eq!(contains(s, p), s.contains(p));
        assert_eq!(find(s, p).is_some(), s.find(p).is_some());
        assert_eq!(split_char(s, 'a'), s.split('a').collect::<Vec<_>>());
        assert_eq!(split_words(s), s.split_whitespace().collect::<Vec<_>>());
        assert_eq!(split_lines(s), s.lines().collect::<Vec<_>>());
    }
    assert_eq!(replace("aXbX", "X", "--"), "a--b--");
    assert_eq!(join_all(&texts(&["a", "b"]), ", "), "a, b");
    assert_eq!(split_lines("a\r\nb\n\nc"), "a\r\nb\n\nc".lines().collect::<Vec<_>>());
    assert_eq!(split_words(" a \u{3000}b\t"), ["a", "b"]);
}

#[test]
fn letters_change_case_as_the_standard_library_does() {
    for s in ["ÄpFel", "ẞ", "İ", "ΑΣ", "plain"] {
        assert_eq!(to_ascii_lower(s), s.to_ascii_lowercase());
        assert_eq!(trim(&format!(" \t{s}\u{a0}\n")), s);
    }
    assert!(eq_fold("OFF", "off") && !eq_fold("Ä", "ä"));
    assert_eq!(trim_end_char("a//", '/'), "a");
    assert_eq!(trim_start_char("//a", '/'), "a");
}

#[test]
fn numbers_are_read_and_written() {
    assert_eq!(nat_text(u64::MAX), u64::MAX.to_string());
    assert_eq!(signed_text(i64::MIN), i64::MIN.to_string());
    assert_eq!(padded("7", 3), "007");
    assert_eq!(hex_text(255, 4), "00ff");
    for s in ["0", "+5", "-1", "", "65535", "65536", "1a", "+", "007"] {
        assert_eq!(read_nat(s, 65535).map(|n| n as u16), s.parse::<u16>().ok(), "{s}");
        assert_eq!(read_int(s), s.parse::<i64>().ok(), "{s}");
    }
    assert_eq!(read_int("-9223372036854775808"), Some(i64::MIN));
    assert_eq!(read_int("9223372036854775808"), None);
}

#[test]
fn texts_are_ordered_as_the_standard_library_orders_them() {
    let words = ["", "a", "B", "ab", "ä", "z", "\u{ffff}", "\u{10000}"];
    for a in words {
        for b in words {
            assert_eq!(text_before(a, b), a < b, "{a} {b}");
        }
    }
    let mut sorted = texts(&words);
    sorted.sort();
    assert_eq!(sort_texts(&texts(&words)), sorted);
    assert!(list_before(&texts(&["a"]), &texts(&["a", "b"])));
    assert!(!list_before(&texts(&["b"]), &texts(&["a", "b"])));
}

#[test]
fn paths_are_taken_apart_as_the_standard_library_does() {
    let cases = ["/a/b.gguf", "a", "", "/", "/a/", "a/./b", "a/..", "/a//b/", ".", "..", "./a"];
    for s in cases {
        let p = std::path::Path::new(s);
        assert_eq!(path::file_name(s).as_deref(), p.file_name().and_then(|n| n.to_str()), "{s}");
        assert_eq!(path::parent(s).as_deref(), p.parent().and_then(|n| n.to_str()), "{s}");
        assert_eq!(path::join(s, "x"), p.join("x").to_str().unwrap(), "{s}");
        assert_eq!(path::join(s, "/x"), p.join("/x").to_str().unwrap(), "{s}");
        let up: Vec<&str> = p.ancestors().map(|a| a.to_str().unwrap()).collect();
        assert_eq!(path::ancestors(s), up, "{s}");
        assert_eq!(path::with_file_name(s, "n"), p.with_file_name("n").to_str().unwrap(), "{s}");
        for t in cases {
            let q = std::path::Path::new(t);
            assert_eq!(path::same(s, t), p == q, "{s} {t}");
            assert_eq!(path::starts_with(s, t), p.starts_with(q), "{s} {t}");
        }
    }
    assert_eq!(path::extension("a.tar.gz").as_deref(), Some("gz"));
    assert_eq!(path::extension(".hidden"), None);
}

#[test]
fn names_are_made_safe_and_hashed() {
    assert_eq!(safe_component("a/b\\c\0", true), "a_b_c_");
    assert_eq!(safe_component("a\\b", false), "a\\b");
    assert_eq!(safe_component(".", false), "_");
    assert_eq!(stable_hash(b""), 0xcbf2_9ce4_8422_2325);
    assert_eq!(hash_text("a"), 0xaf63_dc4c_8601_ec8c);
    assert_eq!(cache_dir_name("o/r"), "models--o--r");
    assert_eq!(encode("a/b c~ä", true), "a/b%20c~%C3%A4");
    assert_eq!(encode("a/b", false), "a%2Fb");
}

#[test]
fn records_are_replaced_through_a_scratch_file() {
    assert_eq!(scratch_path("/d/r.json", 7, 2).as_deref(), Some("/d/r.json.7.2.tmp"));
    assert_eq!(scratch_path("/", 7, 2), None);
    assert_eq!(write_if_changed(&Some(vec![1, 2]), &vec![1, 2]), WriteStep::Keep);
    assert_eq!(write_if_changed(&Some(vec![1]), &vec![1, 2]), WriteStep::Replace);
    assert_eq!(write_if_changed(&None, &vec![]), WriteStep::Replace);
}

#[test]
fn a_table_holds_one_value_per_key() {
    let mut map = TextMap::new();
    map.insert("k", "1".into());
    map.insert("k", "2".into());
    assert_eq!(map.get("k").map(String::as_str), Some("2"));
    assert_eq!(map.get("x"), None);
    assert_eq!(map.clone().entries.len(), 1);
}
