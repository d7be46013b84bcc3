//! Literal substring replacement: the specification of what
//! `str::replace`-style scanning produces, and a verified executable
//! implementation of it.

use vstd::prelude::*;

verus! {

/// `pat` occurs in `text` starting at character position `i`.
pub open spec fn occurs_at(text: Seq<char>, pat: Seq<char>, i: int) -> bool {
    0 <= i && i + pat.len() <= text.len() && text.subrange(i, i + pat.len() as int) == pat
}

/// `pat` occurs somewhere in `text`.
pub open spec fn contains_pat(text: Seq<char>, pat: Seq<char>) -> bool {
    exists|i: int| occurs_at(text, pat, i)
}

/// The result of replacing every occurrence of `pat` in `text` with
/// `rep`, scanning left to right and never rescanning replaced text.
/// An empty pattern is left alone: the replacement is the identity.
pub open spec fn replace_spec(text: Seq<char>, pat: Seq<char>, rep: Seq<char>) -> Seq<char>
    decreases text.len(),
{
    if pat.len() == 0 || text.len() < pat.len() {
        text
    } else if text.subrange(0, pat.len() as int) == pat {
        rep + replace_spec(text.skip(pat.len() as int), pat, rep)
    } else {
        seq![text[0]] + replace_spec(text.skip(1), pat, rep)
    }
}

/// Decides whether `pat` occurs in `text` at character position `i`.
fn matches_at(text: &str, pat: &str, i: usize) -> (r: bool)
    requires
        i + pat@.len() <= text@.len(),
    ensures
        r == occurs_at(text@, pat@, i as int),
{
    let n = text.unicode_len();
    let plen = pat.unicode_len();
    let mut j: usize = 0;
    while j < plen
        invariant
            j <= plen,
            n == text@.len(),
            plen == pat@.len(),
            i + plen <= n,
            forall|k: int| 0 <= k < j ==> text@[i + k] == pat@[k],
        decreases plen - j,
    {
        if text.get_char(i + j) != pat.get_char(j) {
            assert(text@.subrange(i as int, i + plen as int) != pat@) by {
                if text@.subrange(i as int, i + plen as int) == pat@ {
                    assert(text@.subrange(i as int, i + plen as int)[j as int] == text@[i + j]);
                }
            }
            return false;
        }
        j += 1;
    }
    assert(text@.subrange(i as int, i + plen as int) =~= pat@);
    true
}

/// Replaces every occurrence of `pat` in `text` with `rep`, scanning
/// left to right, exactly as `replace_spec` describes.
#[verifier::rlimit(60)]
pub fn replace_all(text: &str, pat: &str, rep: &str) -> (out: String)
    requires
        pat@.len() >= 1,
    ensures
        out@ == replace_spec(text@, pat@, rep@),
{
    let n = text.unicode_len();
    let plen = pat.unicode_len();
    let mut out = String::new();
    let mut i: usize = 0;
    assert(text@.skip(0) =~= text@);
    while i < n
        invariant
            i <= n,
            n == text@.len(),
            plen == pat@.len(),
            plen >= 1,
            replace_spec(text@, pat@, rep@) == out@ + replace_spec(
                text@.skip(i as int),
                pat@,
                rep@,
            ),
        decreases n - i,
    {
        let ghost tail = text@.skip(i as int);
        let ghost prev_out = out@;
        if plen <= n - i && matches_at(text, pat, i) {
            proof {
                assert(tail.subrange(0, plen as int) =~= text@.subrange(
                    i as int,
                    i + plen as int,
                ));
                assert(tail.skip(plen as int) =~= text@.skip(i + plen as int));
                assert(replace_spec(tail, pat@, rep@) == rep@ + replace_spec(
                    tail.skip(plen as int),
                    pat@,
                    rep@,
                ));
            }
            out.append(rep);
            i = i + plen;
            proof {
                assert(prev_out + (rep@ + replace_spec(text@.skip(i as int), pat@, rep@))
                    =~= (prev_out + rep@) + replace_spec(text@.skip(i as int), pat@, rep@));
            }
        } else {
            proof {
                if plen <= n - i {
                    assert(!occurs_at(text@, pat@, i as int));
                    assert(tail.subrange(0, plen as int) =~= text@.subrange(
                        i as int,
                        i + plen as int,
                    ));
                    assert(tail.subrange(0, plen as int) != pat@);
                } else {
                    assert(tail.len() < plen);
                }
                assert(tail.skip(1) =~= text@.skip(i + 1));
                assert(seq![tail[0]] =~= text@.subrange(i as int, i + 1));
                if tail.len() < plen {
                    assert(tail.skip(1).len() < plen);
                    assert(replace_spec(tail, pat@, rep@) == tail);
                    assert(replace_spec(tail.skip(1), pat@, rep@) == tail.skip(1));
                    assert(tail =~= seq![tail[0]] + tail.skip(1));
                }
                assert(replace_spec(tail, pat@, rep@) == seq![tail[0]] + replace_spec(
                    tail.skip(1),
                    pat@,
                    rep@,
                ));
                assert(prev_out + (seq![tail[0]] + replace_spec(tail.skip(1), pat@, rep@))
                    =~= (prev_out + seq![tail[0]]) + replace_spec(tail.skip(1), pat@, rep@));
            }
            out.append(text.substring_char(i, i + 1));
            i = i + 1;
        }
        proof {
            assert(replace_spec(text@, pat@, rep@) == out@ + replace_spec(
                text@.skip(i as int),
                pat@,
                rep@,
            ));
        }
    }
    proof {
        assert(text@.skip(n as int) =~= Seq::<char>::empty());
        assert(replace_spec(Seq::<char>::empty(), pat@, rep@) == Seq::<char>::empty());
        assert(out@ + Seq::<char>::empty() =~= out@);
    }
    out
}

/// A character that can open a placeholder token.
pub open spec fn is_open(c: char) -> bool {
    c == '[' || c == '<'
}

/// No opening bracket stands at any position of `t` from `k` on.
pub open spec fn tail_no_open(t: Seq<char>, k: int) -> bool
    decreases t.len() - k,
{
    k >= t.len() || (!is_open(t[k]) && tail_no_open(t, k + 1))
}

/// A well-formed token: at least two characters, an opening bracket
/// first, and no further opening bracket anywhere after it.
pub open spec fn wf_token(t: Seq<char>) -> bool {
    t.len() >= 2 && is_open(t[0]) && tail_no_open(t, 1)
}

/// No opening bracket anywhere in `s`.
pub open spec fn no_open(s: Seq<char>) -> bool {
    forall|k: int| 0 <= k < s.len() ==> !is_open(#[trigger] s[k])
}

/// Every opening bracket in `t` is the start of an occurrence of one
/// of the tokens in `toks`.
pub open spec fn tok_ok(t: Seq<char>, toks: Seq<Seq<char>>) -> bool {
    forall|i: int|
        0 <= i < t.len() && is_open(#[trigger] t[i]) ==> exists|j: int|
            0 <= j < toks.len() && #[trigger] occurs_at(t, toks[j], i)
}

/// `tail_no_open` pointwise: no position from `k` on is an opening
/// bracket.
pub proof fn lemma_tail_no_open(t: Seq<char>, k: int, q: int)
    requires
        tail_no_open(t, k),
        k <= q < t.len(),
    ensures
        !is_open(t[q]),
    decreases q - k,
{
    if q > k {
        lemma_tail_no_open(t, k + 1, q);
    }
}

/// Occurrences shift with `skip`: `pat` occurs in `t.skip(d)` at `i`
/// exactly when it occurs in `t` at `i + d`.
pub proof fn lemma_occurs_shift(t: Seq<char>, pat: Seq<char>, d: int, i: int)
    requires
        0 <= d <= t.len(),
        0 <= i,
    ensures
        occurs_at(t.skip(d), pat, i) == occurs_at(t, pat, i + d),
{
    if occurs_at(t.skip(d), pat, i) {
        assert(t.subrange(i + d, i + d + pat.len()) =~= t.skip(d).subrange(i, i + pat.len()));
    }
    if occurs_at(t, pat, i + d) && i + pat.len() <= t.len() - d {
        assert(t.skip(d).subrange(i, i + pat.len()) =~= t.subrange(i + d, i + d + pat.len()));
    }
}

/// An occurrence in `b` is an occurrence in `a + b`, shifted right by
/// the length of `a`.
pub proof fn lemma_concat_occurs(a: Seq<char>, b: Seq<char>, pat: Seq<char>, i: int)
    requires
        occurs_at(b, pat, i),
    ensures
        occurs_at(a + b, pat, i + a.len()),
{
    assert((a + b).subrange(a.len() + i, a.len() + i + pat.len()) =~= b.subrange(
        i,
        i + pat.len(),
    ));
}

/// As long as no occurrence of `pat` starts before position `m`, the
/// replacement copies the first `m` characters verbatim and goes on
/// from there.
pub proof fn lemma_replace_prefix(text: Seq<char>, pat: Seq<char>, rep: Seq<char>, m: int)
    requires
        pat.len() >= 1,
        0 <= m <= text.len(),
        forall|q: int| 0 <= q < m ==> !occurs_at(text, pat, q),
    ensures
        replace_spec(text, pat, rep) == text.subrange(0, m) + replace_spec(
            text.skip(m),
            pat,
            rep,
        ),
    decreases m,
{
    if m == 0 {
        assert(text.skip(0) =~= text);
        assert(text.subrange(0, 0) + replace_spec(text, pat, rep) =~= replace_spec(
            text,
            pat,
            rep,
        ));
    } else if text.len() < pat.len() {
        assert(replace_spec(text, pat, rep) == text);
        assert(text.skip(m).len() < pat.len());
        assert(replace_spec(text.skip(m), pat, rep) == text.skip(m));
        assert(text.subrange(0, m) + text.skip(m) =~= text);
    } else {
        assert(!occurs_at(text, pat, 0));
        assert(text.subrange(0, pat.len() as int) != pat);
        let rest = text.skip(1);
        assert forall|q: int| 0 <= q < m - 1 implies !occurs_at(rest, pat, q) by {
            lemma_occurs_shift(text, pat, 1, q);
        }
        lemma_replace_prefix(rest, pat, rep, m - 1);
        assert(rest.subrange(0, m - 1) =~= text.subrange(1, m));
        assert(rest.skip(m - 1) =~= text.skip(m));
        assert(seq![text[0]] + (text.subrange(1, m) + replace_spec(text.skip(m), pat, rep))
            =~= text.subrange(0, m) + replace_spec(text.skip(m), pat, rep));
    }
}

/// One replacement round keeps templates well-bracketed: when every
/// opening bracket starts a token of `toks`, each token is well
/// formed, and the replacement text has no opening bracket, then in
/// the output every opening bracket starts a token of `toks` other
/// than the one just replaced.
pub proof fn lemma_replace_step(text: Seq<char>, toks: Seq<Seq<char>>, rep: Seq<char>)
    requires
        toks.len() >= 1,
        forall|j: int| 0 <= j < toks.len() ==> wf_token(#[trigger] toks[j]),
        no_open(rep),
        tok_ok(text, toks),
    ensures
        tok_ok(replace_spec(text, toks[0], rep), toks.skip(1)),
    decreases text.len(),
{
    let pat = toks[0];
    let plen = pat.len() as int;
    let out = replace_spec(text, pat, rep);
    if text.len() < plen {
        assert(out == text);
        assert forall|i: int| 0 <= i < out.len() && is_open(#[trigger] out[i]) implies exists|
            j: int,
        | 0 <= j < toks.skip(1).len() && #[trigger] occurs_at(out, toks.skip(1)[j], i) by {
            let j = choose|j: int| 0 <= j < toks.len() && #[trigger] occurs_at(text, toks[j], i);
            assert(j >= 1) by {
                if j == 0 {
                    assert(i + plen <= text.len());
                }
            }
            assert(toks.skip(1)[j - 1] == toks[j]);
            assert(occurs_at(out, toks.skip(1)[j - 1], i));
        }
    } else if text.subrange(0, plen) == pat {
        let rest = text.skip(plen);
        let r = replace_spec(rest, pat, rep);
        assert(out == rep + r);
        assert forall|i: int| 0 <= i < rest.len() && is_open(#[trigger] rest[i]) implies exists|
            j: int,
        | 0 <= j < toks.len() && #[trigger] occurs_at(rest, toks[j], i) by {
            assert(rest[i] == text[i + plen]);
            let j = choose|j: int|
                0 <= j < toks.len() && #[trigger] occurs_at(text, toks[j], i + plen);
            lemma_occurs_shift(text, toks[j], plen, i);
            assert(occurs_at(rest, toks[j], i));
        }
        lemma_replace_step(rest, toks, rep);
        assert forall|i: int| 0 <= i < out.len() && is_open(#[trigger] out[i]) implies exists|
            j: int,
        | 0 <= j < toks.skip(1).len() && #[trigger] occurs_at(out, toks.skip(1)[j], i) by {
            if i < rep.len() {
                assert(out[i] == rep[i]);
                assert(false);
            } else {
                assert(out[i] == r[i - rep.len()]);
                let j = choose|j: int|
                    0 <= j < toks.skip(1).len() && #[trigger] occurs_at(
                        r,
                        toks.skip(1)[j],
                        i - rep.len(),
                    );
                lemma_concat_occurs(rep, r, toks.skip(1)[j], i - rep.len());
                assert(occurs_at(out, toks.skip(1)[j], i));
            }
        }
    } else {
        let rest = text.skip(1);
        let r = replace_spec(rest, pat, rep);
        assert(out == seq![text[0]] + r);
        assert forall|i: int| 0 <= i < rest.len() && is_open(#[trigger] rest[i]) implies exists|
            j: int,
        | 0 <= j < toks.len() && #[trigger] occurs_at(rest, toks[j], i) by {
            assert(rest[i] == text[i + 1]);
            let j = choose|j: int|
                0 <= j < toks.len() && #[trigger] occurs_at(text, toks[j], i + 1);
            lemma_occurs_shift(text, toks[j], 1, i);
            assert(occurs_at(rest, toks[j], i));
        }
        lemma_replace_step(rest, toks, rep);
        assert forall|i: int| 0 <= i < out.len() && is_open(#[trigger] out[i]) implies exists|
            j: int,
        | 0 <= j < toks.skip(1).len() && #[trigger] occurs_at(out, toks.skip(1)[j], i) by {
            if i == 0 {
                assert(out[0] == text[0]);
                let j = choose|j: int|
                    0 <= j < toks.len() && #[trigger] occurs_at(text, toks[j], 0);
                assert(j >= 1) by {
                    if j == 0 {
                        assert(text.subrange(0, plen) == pat);
                    }
                }
                let tok = toks[j];
                let ll = tok.len() as int;
                assert(text.subrange(0, ll) == tok);
                assert forall|q: int| 0 <= q < ll - 1 implies !occurs_at(rest, pat, q) by {
                    if occurs_at(rest, pat, q) {
                        lemma_occurs_shift(text, pat, 1, q);
                        assert(occurs_at(text, pat, q + 1));
                        assert(text.subrange(q + 1, q + 1 + plen)[0] == text[q + 1]);
                        assert(text[q + 1] == pat[0]);
                        assert(text.subrange(0, ll)[q + 1] == text[q + 1]);
                        assert(text[q + 1] == tok[q + 1]);
                        lemma_tail_no_open(tok, 1, q + 1);
                        assert(false);
                    }
                }
                lemma_replace_prefix(rest, pat, rep, ll - 1);
                assert(r == rest.subrange(0, ll - 1) + replace_spec(rest.skip(ll - 1), pat, rep));
                assert(out.subrange(0, ll) =~= tok) by {
                    assert forall|q: int| 0 <= q < ll implies out[q] == tok[q] by {
                        if q == 0 {
                            assert(out[0] == text[0]);
                            assert(text.subrange(0, ll)[0] == text[0]);
                        } else {
                            assert(out[q] == r[q - 1]);
                            assert(r[q - 1] == rest.subrange(0, ll - 1)[q - 1]);
                            assert(rest[q - 1] == text[q]);
                            assert(text.subrange(0, ll)[q] == text[q]);
                        }
                    }
                }
                assert(occurs_at(out, tok, 0));
                assert(toks.skip(1)[j - 1] == tok);
            } else {
                assert(out[i] == r[i - 1]);
                let j = choose|j: int|
                    0 <= j < toks.skip(1).len() && #[trigger] occurs_at(
                        r,
                        toks.skip(1)[j],
                        i - 1,
                    );
                lemma_concat_occurs(seq![text[0]], r, toks.skip(1)[j], i - 1);
                assert(occurs_at(out, toks.skip(1)[j], i));
            }
        }
    }
}

/// In text whose opening brackets all start tokens of an empty token
/// list — that is, text with no opening bracket at all — no
/// well-formed token occurs.
pub proof fn lemma_tok_ok_empty_no_tokens(t: Seq<char>, pat: Seq<char>)
    requires
        tok_ok(t, Seq::<Seq<char>>::empty()),
        wf_token(pat),
    ensures
        !contains_pat(t, pat),
{
    if contains_pat(t, pat) {
        let i = choose|i: int| occurs_at(t, pat, i);
        assert(t.subrange(i, i + pat.len())[0] == t[i]);
        assert(is_open(t[i]));
    }
}

/// Replacing a pattern that never occurs in the text leaves the text
/// unchanged.
pub proof fn lemma_replace_absent(text: Seq<char>, pat: Seq<char>, rep: Seq<char>)
    requires
        !contains_pat(text, pat),
    ensures
        replace_spec(text, pat, rep) == text,
    decreases text.len(),
{
    if pat.len() == 0 || text.len() < pat.len() {
    } else if text.subrange(0, pat.len() as int) == pat {
        assert(occurs_at(text, pat, 0));
    } else {
        assert forall|i: int| !occurs_at(text.skip(1), pat, i) by {
            if occurs_at(text.skip(1), pat, i) {
                assert(text.subrange(i + 1, i + 1 + pat.len()) =~= text.skip(1).subrange(
                    i,
                    i + pat.len(),
                ));
                assert(occurs_at(text, pat, i + 1));
            }
        }
        lemma_replace_absent(text.skip(1), pat, rep);
        assert(seq![text[0]] + text.skip(1) =~= text);
    }
}

} // verus!
