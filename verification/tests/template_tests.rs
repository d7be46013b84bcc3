use license_gen::template::{instantiate, LicenseTemplate, ResolvedIdentity};

fn tmpl(body: &str) -> LicenseTemplate {
    LicenseTemplate { identifier: "MIT".to_string(), body: body.to_string() }
}

fn jane_2024() -> ResolvedIdentity {
    ResolvedIdentity { name: "Jane Doe".to_string(), year: "2024".to_string() }
}

#[test]
fn end_to_end_scenario() {
    let t = tmpl("Copyright [yyyy] [fullname]\nPermission is...");
    let out = instantiate(&t, &jane_2024());
    assert_eq!(out, "Copyright 2024 Jane Doe\nPermission is...");
}

#[test]
fn all_six_tokens_replaced() {
    let t = tmpl("a [year] b [yyyy] c [fullname] d [name of copyright owner] e <year> f <name of author> g");
    let out = instantiate(&t, &jane_2024());
    assert_eq!(out, "a 2024 b 2024 c Jane Doe d Jane Doe e 2024 f Jane Doe g");
    assert!(!out.contains("[year]"));
    assert!(!out.contains("[yyyy]"));
    assert!(!out.contains("[fullname]"));
    assert!(!out.contains("[name of copyright owner]"));
    assert!(!out.contains("<year>"));
    assert!(!out.contains("<name of author>"));
}

#[test]
fn no_op_without_tokens() {
    let body = "This text mentions a year and a fullname but no token.\n(c) nobody";
    let t = tmpl(body);
    let out = instantiate(&t, &jane_2024());
    assert_eq!(out, body);
}

#[test]
fn deterministic_on_equal_inputs() {
    let t = tmpl("Copyright (c) [year] [fullname]");
    let a = instantiate(&t, &jane_2024());
    let b = instantiate(&t, &jane_2024());
    assert_eq!(a, b);
}

#[test]
fn year_tokens_all_take_the_year() {
    let t = tmpl("[year] <year> [yyyy]");
    let out = instantiate(&t, &jane_2024());
    assert_eq!(out, "2024 2024 2024");
}

#[test]
fn name_tokens_all_take_the_name() {
    let t = tmpl("[fullname]|[name of copyright owner]|<name of author>");
    let out = instantiate(&t, &jane_2024());
    assert_eq!(out, "Jane Doe|Jane Doe|Jane Doe");
}

#[test]
fn empty_body_stays_empty() {
    let out = instantiate(&tmpl(""), &jane_2024());
    assert_eq!(out, "");
}

#[test]
fn adjacent_and_edge_tokens() {
    let t = tmpl("[year][year]x[year]");
    let out = instantiate(&t, &jane_2024());
    assert_eq!(out, "20242024x2024");
}

#[test]
fn year_is_opaque_text() {
    let t = tmpl("Copyright [year]");
    let id = ResolvedIdentity { name: "x".to_string(), year: "MMXXIV".to_string() };
    assert_eq!(instantiate(&t, &id), "Copyright MMXXIV");
}

#[test]
fn replaced_text_is_not_rescanned() {
    // A pathological body can re-form a token out of a replacement and
    // its surroundings; the scan never rescans what it has produced,
    // so the re-formed token survives. This mirrors the accepted
    // limitation of literal, sequential substitution.
    let t = tmpl("[[fullname]ullname]z");
    let id = ResolvedIdentity { name: "f".to_string(), year: "2024".to_string() };
    assert_eq!(instantiate(&t, &id), "[fullname]z");
}
