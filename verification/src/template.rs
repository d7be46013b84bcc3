//! License templates and their instantiation: every recognized
//! placeholder token is replaced by the resolved year or name.

use vstd::prelude::*;
use crate::replace::{
    replace_all, replace_spec, contains_pat, lemma_replace_absent, no_open, tail_no_open, tok_ok,
    wf_token, lemma_replace_step, lemma_tok_ok_empty_no_tokens,
};

verus! {

/// A license template: a unique identifier (such as a short license
/// name) and the raw body text, which may contain placeholder tokens.
pub struct LicenseTemplate {
    pub identifier: String,
    pub body: String,
}

/// The copyright holder's display name and the year to embed, both
/// treated as opaque text.
pub struct ResolvedIdentity {
    pub name: String,
    pub year: String,
}

/// The text produced by substituting `year` for the year tokens and
/// `name` for the name tokens, one token at a time, in the order the
/// tool has always applied them.
pub open spec fn instantiate_spec(body: Seq<char>, name: Seq<char>, year: Seq<char>) -> Seq<
    char,
> {
    replace_spec(
        replace_spec(
            replace_spec(
                replace_spec(
                    replace_spec(replace_spec(body, "[year]"@, year), "[yyyy]"@, year),
                    "[fullname]"@,
                    name,
                ),
                "[name of copyright owner]"@,
                name,
            ),
            "<year>"@,
            year,
        ),
        "<name of author>"@,
        name,
    )
}

/// Produces the final license text from a template and a resolved
/// identity: every occurrence of every recognized placeholder token is
/// replaced by the resolved year or name. Pure and deterministic.
pub fn instantiate(template: &LicenseTemplate, identity: &ResolvedIdentity) -> (out: String)
    ensures
        out@ == instantiate_spec(template.body@, identity.name@, identity.year@),
{
    proof {
        reveal_strlit("[year]");
        reveal_strlit("[yyyy]");
        reveal_strlit("[fullname]");
        reveal_strlit("[name of copyright owner]");
        reveal_strlit("<year>");
        reveal_strlit("<name of author>");
    }
    let s1 = replace_all(template.body.as_str(), "[year]", identity.year.as_str());
    let s2 = replace_all(s1.as_str(), "[yyyy]", identity.year.as_str());
    let s3 = replace_all(s2.as_str(), "[fullname]", identity.name.as_str());
    let s4 = replace_all(s3.as_str(), "[name of copyright owner]", identity.name.as_str());
    let s5 = replace_all(s4.as_str(), "<year>", identity.year.as_str());
    replace_all(s5.as_str(), "<name of author>", identity.name.as_str())
}

/// The six recognized placeholder tokens, in the order they are
/// replaced.
pub open spec fn recognized_tokens() -> Seq<Seq<char>> {
    seq![
        "[year]"@,
        "[yyyy]"@,
        "[fullname]"@,
        "[name of copyright owner]"@,
        "<year>"@,
        "<name of author>"@,
    ]
}

/// Each recognized token is well formed: it opens with `[` or `<` and
/// holds no further opening bracket.
pub proof fn lemma_recognized_tokens_wf()
    ensures
        forall|j: int|
            0 <= j < recognized_tokens().len() ==> wf_token(#[trigger] recognized_tokens()[j]),
{
    reveal_strlit("[year]");
    reveal_strlit("[yyyy]");
    reveal_strlit("[fullname]");
    reveal_strlit("[name of copyright owner]");
    reveal_strlit("<year>");
    reveal_strlit("<name of author>");
    assert(wf_token("[year]"@)) by {
        reveal_with_fuel(tail_no_open, 8);
    }
    assert(wf_token("[yyyy]"@)) by {
        reveal_with_fuel(tail_no_open, 8);
    }
    assert(wf_token("[fullname]"@)) by {
        reveal_with_fuel(tail_no_open, 12);
    }
    assert(wf_token("[name of copyright owner]"@)) by {
        reveal_with_fuel(tail_no_open, 27);
    }
    assert(wf_token("<year>"@)) by {
        reveal_with_fuel(tail_no_open, 8);
    }
    assert(wf_token("<name of author>"@)) by {
        reveal_with_fuel(tail_no_open, 18);
    }
}

/// Instantiation leaves no recognized token behind, for every template
/// whose opening brackets all belong to recognized tokens and every
/// identity whose name and year contain no `[` or `<`. (Without those
/// bounds the claim fails: replacing `"[fullname]"` by `"f"` in the
/// body `"[[fullname]ullname]"` leaves `"[fullname]"` behind.)
pub proof fn lemma_instantiate_no_tokens(body: Seq<char>, name: Seq<char>, year: Seq<char>)
    requires
        tok_ok(body, recognized_tokens()),
        no_open(name),
        no_open(year),
    ensures
        forall|j: int|
            0 <= j < recognized_tokens().len() ==> !contains_pat(
                instantiate_spec(body, name, year),
                #[trigger] recognized_tokens()[j],
            ),
{
    lemma_recognized_tokens_wf();
    let toks = recognized_tokens();
    let t1 = replace_spec(body, "[year]"@, year);
    let t2 = replace_spec(t1, "[yyyy]"@, year);
    let t3 = replace_spec(t2, "[fullname]"@, name);
    let t4 = replace_spec(t3, "[name of copyright owner]"@, name);
    let t5 = replace_spec(t4, "<year>"@, year);
    let t6 = replace_spec(t5, "<name of author>"@, name);
    assert(toks[0] == "[year]"@);
    lemma_replace_step(body, toks, year);
    let toks1 = toks.skip(1);
    assert(toks1[0] == "[yyyy]"@);
    assert forall|j: int| 0 <= j < toks1.len() implies wf_token(#[trigger] toks1[j]) by {
        assert(toks1[j] == toks[j + 1]);
    }
    lemma_replace_step(t1, toks1, year);
    let toks2 = toks1.skip(1);
    assert(toks2 =~= toks.skip(2));
    assert(toks2[0] == "[fullname]"@);
    assert forall|j: int| 0 <= j < toks2.len() implies wf_token(#[trigger] toks2[j]) by {
        assert(toks2[j] == toks[j + 2]);
    }
    lemma_replace_step(t2, toks2, name);
    let toks3 = toks2.skip(1);
    assert(toks3 =~= toks.skip(3));
    assert(toks3[0] == "[name of copyright owner]"@);
    assert forall|j: int| 0 <= j < toks3.len() implies wf_token(#[trigger] toks3[j]) by {
        assert(toks3[j] == toks[j + 3]);
    }
    lemma_replace_step(t3, toks3, name);
    let toks4 = toks3.skip(1);
    assert(toks4 =~= toks.skip(4));
    assert(toks4[0] == "<year>"@);
    assert forall|j: int| 0 <= j < toks4.len() implies wf_token(#[trigger] toks4[j]) by {
        assert(toks4[j] == toks[j + 4]);
    }
    lemma_replace_step(t4, toks4, year);
    let toks5 = toks4.skip(1);
    assert(toks5 =~= toks.skip(5));
    assert(toks5[0] == "<name of author>"@);
    assert forall|j: int| 0 <= j < toks5.len() implies wf_token(#[trigger] toks5[j]) by {
        assert(toks5[j] == toks[j + 5]);
    }
    lemma_replace_step(t5, toks5, name);
    let toks6 = toks5.skip(1);
    assert(toks6 =~= Seq::<Seq<char>>::empty());
    assert(t6 == instantiate_spec(body, name, year));
    assert forall|j: int| 0 <= j < toks.len() implies !contains_pat(
        instantiate_spec(body, name, year),
        #[trigger] toks[j],
    ) by {
        lemma_tok_ok_empty_no_tokens(t6, toks[j]);
    }
}

/// Instantiation is deterministic: equal template bodies and equal
/// identities yield equal output.
pub proof fn lemma_instantiate_deterministic(
    body1: Seq<char>,
    name1: Seq<char>,
    year1: Seq<char>,
    body2: Seq<char>,
    name2: Seq<char>,
    year2: Seq<char>,
)
    requires
        body1 == body2,
        name1 == name2,
        year1 == year2,
    ensures
        instantiate_spec(body1, name1, year1) == instantiate_spec(body2, name2, year2),
{
}

/// Instantiation is a no-op on text containing none of the six
/// recognized placeholder tokens: the output equals the input.
pub proof fn lemma_instantiate_noop(body: Seq<char>, name: Seq<char>, year: Seq<char>)
    requires
        !contains_pat(body, "[year]"@),
        !contains_pat(body, "[yyyy]"@),
        !contains_pat(body, "[fullname]"@),
        !contains_pat(body, "[name of copyright owner]"@),
        !contains_pat(body, "<year>"@),
        !contains_pat(body, "<name of author>"@),
    ensures
        instantiate_spec(body, name, year) == body,
{
    lemma_replace_absent(body, "[year]"@, year);
    lemma_replace_absent(body, "[yyyy]"@, year);
    lemma_replace_absent(body, "[fullname]"@, name);
    lemma_replace_absent(body, "[name of copyright owner]"@, name);
    lemma_replace_absent(body, "<year>"@, year);
    lemma_replace_absent(body, "<name of author>"@, name);
}

} // verus!
