use horton::rules::if_change_then_change::{find_ictc_blocks, IfChange, ThenChange};
use regex::Regex;

/// What the expressions for the markers say of a line: whether it opens,
/// closes or does neither, and the text that follows the keyword.
fn expressions() -> (Regex, Regex) {
    (
        Regex::new(r"(?i)^\s*(//|#)\s*ifchange(.*)$").unwrap(),
        Regex::new(r"(?i)^\s*(//|#)\s*thenchange(.*)$").unwrap(),
    )
}

fn by_expression(expressions: &(Regex, Regex), line: &str) -> (&'static str, String) {
    let (opening, closing) = expressions;
    if let Some(found) = opening.captures(line) {
        ("opening", found.get(2).unwrap().as_str().trim().to_string())
    } else if let Some(found) = closing.captures(line) {
        ("closing", found.get(2).unwrap().as_str().trim().to_string())
    } else {
        ("none", String::new())
    }
}

/// What the scan says of a line.
fn by_scan(line: &str) -> (&'static str, String) {
    let alone = find_ictc_blocks("a", &vec![line.to_string()]);
    if alone.is_empty() {
        return ("none", String::new());
    }
    assert_eq!(alone.len(), 1);
    match &alone[0].thenchange {
        Some(ThenChange::MissingThen) => {
            let text = match &alone[0].ifchange {
                None => String::new(),
                Some(IfChange::RepoFile(path)) => path.clone(),
                Some(IfChange::RemoteFile(remote)) => remote.block.text.clone(),
            };
            ("opening", text)
        }
        Some(ThenChange::MissingIf) => {
            let pair = find_ictc_blocks("a", &vec!["// ifchange".to_string(), line.to_string()]);
            assert_eq!(pair.len(), 1);
            match &pair[0].thenchange {
                Some(ThenChange::RepoFile(target)) => ("closing", target.clone()),
                other => panic!("unexpected {other:?}"),
            }
        }
        other => panic!("unexpected {other:?}"),
    }
}

#[test]
fn markers_are_what_the_expressions_match() {
    let expressions = expressions();
    let leads = ["", "\t \u{a0}", "\u{2003}\u{85}", "\u{200b}", "\n", "x"];
    let tokens = ["//", "#", "/", "///", "# #", ""];
    let gaps = ["", "\u{2028}\t", "\u{200b}"];
    let keywords = [
        "ifchange", "IFCHANGE", "IfChange", "\u{131}fchange", "\u{130}fchange", "ifchang\u{e9}",
        "thenchange", "ThenChange", "THENCHANGE", "thenchang", "ifchang", "if change",
        "ifchangethenchange", "\u{212a}ifchange",
    ];
    let tails = [
        "", " a", " a b", "\ta\u{a0}", " a\n", "\nb", " a#b c", "\u{a0}x\u{a0}", "x", "  ",
        " git@github.com:a/b.git p#h1#h2 more ", "\u{200b}", " a\rb", "#", " #h",
    ];
    let mut seen = 0;
    for lead in leads {
        for token in tokens {
            for gap in gaps {
                for keyword in keywords {
                    for tail in tails {
                        let line = format!("{lead}{token}{gap}{keyword}{tail}");
                        assert_eq!(by_scan(&line), by_expression(&expressions, &line), "line {line:?}");
                        seen += 1;
                    }
                }
            }
        }
    }
    assert_eq!(seen, 6 * 6 * 3 * 14 * 15);
}

#[test]
fn whitespace_is_what_the_expressions_skip() {
    let expressions = expressions();
    for code in 0..0x3100u32 {
        if let Some(c) = char::from_u32(code) {
            let line = format!("{c}//{c}ifchange{c}a{c}");
            assert_eq!(by_scan(&line), by_expression(&expressions, &line), "character {code:#x}");
            let blocks = find_ictc_blocks("a", &vec![format!("// ifchange a{c}b")]);
            if c == '\n' {
                assert!(blocks.is_empty());
            } else {
                let remote = matches!(blocks[0].ifchange, Some(IfChange::RemoteFile(_)));
                assert_eq!(remote, c.is_whitespace(), "character {code:#x}");
            }
        }
    }
}

#[test]
fn words_of_a_remote_reference() {
    let texts = [
        "repo path", "repo  path#hash", "repo\tpath#", "repo path#h#i more", "r \u{a0} p#x y z",
        "a b#\u{e9}", "a #b", "a # b",
    ];
    for text in texts {
        let blocks = find_ictc_blocks("a", &vec![format!("// IfChange {text}  ")]);
        let remote = match &blocks[0].ifchange {
            Some(IfChange::RemoteFile(remote)) => remote,
            other => panic!("unexpected {other:?}"),
        };
        let parts: Vec<&str> = text.split_whitespace().collect();
        let path_parts: Vec<&str> = parts[1].splitn(2, '#').collect();
        assert_eq!(remote.repo, parts[0]);
        assert_eq!(remote.path, path_parts[0]);
        assert_eq!(remote.lock_hash, if path_parts.len() > 1 { path_parts[1] } else { "" });
        assert_eq!(remote.block.text, text);
        let start = "// IfChange ".chars().count();
        assert_eq!(remote.block.location.start.character as usize, start);
        assert_eq!(remote.block.location.end.character as usize, start + text.chars().count());
    }
}
