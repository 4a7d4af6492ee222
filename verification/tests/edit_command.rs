use chumsky::{prelude::just, text::whitespace, Parser};

use sparring::draft_draw::{EditAction, EditError};

/// The command grammar written with a parser-combinator library, to compare
/// against.
fn reference_parser<'src>() -> impl Parser<'src, &'src str, EditAction> {
    (just("swap")
        .then_ignore(whitespace())
        .ignore_then(chumsky::prelude::text::int(10))
        .then_ignore(whitespace())
        .then(chumsky::prelude::text::int(10)))
    .map(|(a, b): (&str, &str)| EditAction::Swap(a.parse().unwrap(), b.parse().unwrap()))
    .or(just("remove")
        .then_ignore(whitespace())
        .ignore_then(chumsky::prelude::text::int(10))
        .map(|a: &str| EditAction::Remove(a.parse().unwrap())))
}

fn reference(cmd: &str) -> Result<EditAction, EditError> {
    let out = reference_parser().parse(cmd);
    if out.has_errors() {
        let report: Vec<String> = out.errors().map(|e| e.to_string()).collect();
        Err(EditError::ParseErr(report.join("\n")))
    } else {
        Ok(*out.output().unwrap())
    }
}

#[test]
fn parses_swap_and_remove() {
    assert_eq!(EditAction::parse("swap 1 2"), Ok(EditAction::Swap(1, 2)));
    assert_eq!(EditAction::parse("remove 17"), Ok(EditAction::Remove(17)));
    assert_eq!(EditAction::parse("swap\t10\n 0"), Ok(EditAction::Swap(10, 0)));
    assert_eq!(EditAction::parse("swap1 2"), Ok(EditAction::Swap(1, 2)));
    assert_eq!(EditAction::parse("swap 01"), Ok(EditAction::Swap(0, 1)));
    assert_eq!(
        EditAction::parse("remove 18446744073709551615"),
        Ok(EditAction::Remove(u64::MAX))
    );
}

#[test]
fn rejects_malformed_commands() {
    for cmd in ["", "swap", "swap 1", "swap 12", "swap 1 2 ", " swap 1 2", "remove", "remove 01", "Remove 1", "swap a b", "remove 1 2", "swop 1 2"] {
        assert!(
            EditAction::parse(cmd) == Err(EditError::ParseErr("error".to_string())),
            "{cmd:?}"
        );
        assert_eq!(EditAction::parse(cmd), reference(cmd), "{cmd:?}");
    }
}

#[test]
fn agrees_with_combinator_grammar() {
    let samples = [
        "swap 1 2", "swap  3   4", "swap 0 0", "swap 00", "swap 012", "swap 1 2x", "swap\u{3000}5\u{2028}6",
        "swap\u{200b}5 6", "remove 0", "remove\u{a0}9", "remove 09", "remove", "removes 1", "swap 1", "swap x 1",
        "remove 123456", "swap 99 100", "swap 1\u{85}2", "swapremove 1", "remove 1 ", "remove  ", "swap 7 8 9",
    ];
    for cmd in samples {
        assert_eq!(EditAction::parse(cmd), reference(cmd), "{cmd:?}");
    }
}

#[test]
fn reports_ids_too_large() {
    assert!(EditAction::id_too_large("remove 18446744073709551616"));
    assert!(EditAction::id_too_large("swap 1 99999999999999999999 junk"));
    assert!(!EditAction::id_too_large("swap 1 2"));
    assert!(!EditAction::id_too_large("remove x"));
}

#[test]
fn written_commands_read_back() {
    for (a, b) in [(0u64, 0u64), (7, 12), (u64::MAX, 1), (100, 1000)] {
        assert_eq!(EditAction::parse(&format!("swap {a} {b}")), Ok(EditAction::Swap(a, b)));
        assert_eq!(EditAction::parse(&format!("remove {a}")), Ok(EditAction::Remove(a)));
    }
}
