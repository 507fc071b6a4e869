use minipaw::chars::CharSet;
use minipaw::text;

const SAMPLES: [&str; 14] = [
    "",
    " ",
    "a",
    " a b ",
    "a\r\nb\n",
    "a\rb\r\n\r\n",
    "\n\n",
    "é→x",
    "\u{a0}x y\u{2003}\u{3000}",
    "aXbXc",
    "XX",
    "abcabcab",
    "ÄÖ z\u{85}",
    "a, b,,c ,",
];

#[test]
fn texts_are_trimmed_and_split_like_the_standard_library_does() {
    for s in SAMPLES {
        assert_eq!(text::trim(s), s.trim(), "{s:?}");
        assert_eq!(text::trim_start(s), s.trim_start(), "{s:?}");
        assert_eq!(text::trim_end(s), s.trim_end(), "{s:?}");
        assert_eq!(text::lines(s), s.lines().collect::<Vec<_>>(), "{s:?}");
        assert_eq!(text::words(s), s.split_whitespace().collect::<Vec<_>>(), "{s:?}");
        assert_eq!(
            text::pieces(s, CharSet::Only(',')),
            s.split(',').collect::<Vec<_>>(),
            "{s:?}"
        );
        assert_eq!(text::lower(s), s.to_ascii_lowercase(), "{s:?}");
        assert_eq!(text::byte_len(s), s.len(), "{s:?}");
        assert_eq!(text::count(s, 'a'), s.matches('a').count(), "{s:?}");
        assert_eq!(text::replace_char(s, 'a', "12"), s.replace('a', "12"), "{s:?}");
    }
}

#[test]
fn texts_are_searched_like_the_standard_library_does() {
    for s in SAMPLES {
        for p in ["a", "X", "ab", "abc", "\n", "→", "b "] {
            assert_eq!(text::contains(s, p), s.contains(p), "{s:?} {p:?}");
            assert_eq!(text::starts_with(s, p), s.starts_with(p), "{s:?} {p:?}");
            assert_eq!(text::after_prefix(s, p), s.strip_prefix(p), "{s:?} {p:?}");
            assert_eq!(text::around(s, p), s.split_once(p), "{s:?} {p:?}");
            assert_eq!(text::split(s, p), s.split(p).collect::<Vec<_>>(), "{s:?} {p:?}");
            assert_eq!(text::replace(s, p, "-+"), s.replace(p, "-+"), "{s:?} {p:?}");
            let at = s.find(p).map(|i| s[..i].chars().count());
            assert_eq!(text::find(s, p), at, "{s:?} {p:?}");
        }
    }
}

#[test]
fn texts_are_ordered_like_the_standard_library_does() {
    for a in SAMPLES {
        for b in SAMPLES {
            assert_eq!(text::precedes(a, b), a < b, "{a:?} {b:?}");
            assert_eq!(text::same(a, b), a == b, "{a:?} {b:?}");
            assert_eq!(
                text::same_ignoring_case(a, b),
                a.eq_ignore_ascii_case(b),
                "{a:?} {b:?}"
            );
        }
    }
    let list: Vec<String> = SAMPLES.iter().chain(SAMPLES.iter()).map(|s| s.to_string()).collect();
    let set: std::collections::BTreeSet<String> = list.iter().cloned().collect();
    assert_eq!(text::ordered_set(&list), set.into_iter().collect::<Vec<_>>());
}

#[test]
fn texts_are_cut_at_whole_characters() {
    for s in SAMPLES {
        for limit in 0..12 {
            let cut = text::prefix_within(s, limit);
            assert!(cut.len() <= limit);
            assert!(s.starts_with(cut));
            let next = s[cut.len()..].chars().next();
            assert!(next.map_or(true, |c| cut.len() + c.len_utf8() > limit));
        }
    }
    assert_eq!(text::capped("é→", 3, "!"), "é!");
    assert_eq!(text::capped("é→", 5, "!"), "é→");
}
