use rome_core::suppression::{parse_suppression_comment, Suppression};

fn cat(name: &str, value: Option<&str>) -> (String, Option<String>) {
    (name.to_string(), value.map(|v| v.to_string()))
}

fn sup(categories: Vec<(String, Option<String>)>, reason: &str) -> Suppression {
    Suppression {
        categories,
        reason: reason.to_string(),
    }
}

#[test]
fn parse_simple_suppression() {
    assert_eq!(
        parse_suppression_comment("// rome-ignore parse: explanation1"),
        vec![sup(vec![cat("parse", None)], "explanation1")],
    );

    assert_eq!(
        parse_suppression_comment("/** rome-ignore parse: explanation2 */"),
        vec![sup(vec![cat("parse", None)], "explanation2")],
    );

    assert_eq!(
        parse_suppression_comment(
            "/**
                  * rome-ignore parse: explanation3
                  */"
        ),
        vec![sup(vec![cat("parse", None)], "explanation3")],
    );

    assert_eq!(
        parse_suppression_comment(
            "/**
                  * hello
                  * rome-ignore parse: explanation4
                  */"
        ),
        vec![sup(vec![cat("parse", None)], "explanation4")],
    );
}

#[test]
fn parse_multiple_suppression() {
    assert_eq!(
        parse_suppression_comment("// rome-ignore parse(foo) parse(dog): explanation"),
        vec![sup(
            vec![cat("parse", Some("foo")), cat("parse", Some("dog"))],
            "explanation"
        )],
    );

    assert_eq!(
        parse_suppression_comment("/** rome-ignore parse(bar) parse(cat): explanation */"),
        vec![sup(
            vec![cat("parse", Some("bar")), cat("parse", Some("cat"))],
            "explanation"
        )],
    );

    assert_eq!(
        parse_suppression_comment(
            "/**
                  * rome-ignore parse(yes) parse(frog): explanation
                  */"
        ),
        vec![sup(
            vec![cat("parse", Some("yes")), cat("parse", Some("frog"))],
            "explanation"
        )],
    );

    assert_eq!(
        parse_suppression_comment(
            "/**
                  * hello
                  * rome-ignore parse(wow) parse(fish): explanation
                  */"
        ),
        vec![sup(
            vec![cat("parse", Some("wow")), cat("parse", Some("fish"))],
            "explanation"
        )],
    );
}

#[test]
fn parse_multiple_suppression_categories() {
    assert_eq!(
        parse_suppression_comment("// rome-ignore format lint: explanation"),
        vec![sup(vec![cat("format", None), cat("lint", None)], "explanation")],
    );
}
