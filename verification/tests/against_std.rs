use shell::commands::echo_text;
use shell::ls_order::{dir_listing_names, long_listing_order, ListingEntry};
use shell::text::{chars_of, decimal_string, is_whitespace, trim_chars};

#[test]
fn whitespace_matches_char_is_whitespace() {
    for u in 0u32..=0x10FFFF {
        if let Some(c) = char::from_u32(u) {
            assert_eq!(is_whitespace(c), c.is_whitespace(), "U+{u:04X}");
        }
    }
}

#[test]
fn trim_matches_str_trim() {
    for s in ["", " ", "  a b  ", "\u{3000}x\u{a0}", "\t\n y \r", "no-trim", "\u{85}\u{2028}"] {
        let t: String = trim_chars(&chars_of(s)).into_iter().collect();
        assert_eq!(t, s.trim());
    }
}

#[test]
fn decimal_matches_display() {
    for n in [0u64, 7, 10, 99, 100, 12345, u64::MAX] {
        assert_eq!(decimal_string(n), n.to_string());
    }
}

fn sample_names() -> Vec<String> {
    [
        "b", "B", "a", ".a", "..a", "_x", "x_", "Zeta", "zeta", "é", "É", "e", "10", "9", "a-b",
        "ab", "a.b", ".", "..", "ǅ", "ß", "SS", "İ", "i", "I", "~", "a1", "A1", "a_1",
    ]
    .iter()
    .map(|s| s.to_string())
    .collect()
}

#[test]
fn short_order_matches_comparator() {
    let entries: Vec<String> =
        sample_names().into_iter().filter(|n| n != "." && n != "..").collect();
    for show_hidden in [false, true] {
        let mut expected: Vec<String> = Vec::new();
        if show_hidden {
            expected.push(".".to_string());
            expected.push("..".to_string());
        }
        for n in &entries {
            if !show_hidden && n.starts_with('.') {
                continue;
            }
            expected.push(n.clone());
        }
        expected.sort_by(|a, b| {
            let a_spec = a == "." || a == "..";
            let b_spec = b == "." || b == "..";
            if a_spec != b_spec {
                return if a_spec { std::cmp::Ordering::Less } else { std::cmp::Ordering::Greater };
            }
            if a_spec && b_spec {
                return a.cmp(b);
            }
            let ca = a.trim_start_matches('.').to_lowercase();
            let cb = b.trim_start_matches('.').to_lowercase();
            ca.cmp(&cb)
        });
        assert_eq!(dir_listing_names(true, true, entries.clone(), show_hidden), expected);
    }
}

#[test]
fn long_order_matches_comparator() {
    let entries: Vec<String> =
        sample_names().into_iter().filter(|n| n != "." && n != "..").collect();
    let mut items: Vec<(usize, String)> = entries.iter().cloned().enumerate().collect();
    items.sort_by(|(_, na), (_, nb)| {
        let clean = |s: &str| {
            s.chars().filter(|c| c.is_alphanumeric()).collect::<String>().to_lowercase()
        };
        let ord = clean(na).cmp(&clean(nb));
        if ord == std::cmp::Ordering::Equal {
            na.cmp(nb)
        } else {
            ord
        }
    });
    let expected: Vec<ListingEntry> = items
        .into_iter()
        .filter(|(_, n)| !n.starts_with('.'))
        .map(|(i, _)| ListingEntry::Entry(i))
        .collect();
    assert_eq!(long_listing_order(false, false, &entries, false), expected);
}

#[test]
fn echo_matches_join_and_replace() {
    let args: Vec<String> = ["\"q\"", "it's", "plain", ""].iter().map(|s| s.to_string()).collect();
    let expected = args.join(" ").replace('"', "").replace('\'', "");
    assert_eq!(echo_text(&args), expected);
}
