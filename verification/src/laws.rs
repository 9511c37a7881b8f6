//! General properties of the header scanner, stated and proved against
//! the spec function [`scan`] that fixes its behaviour.

use vstd::prelude::*;

verus! {

use crate::scanner::ScanState;
use crate::scanner::extracted_headers;
use crate::scanner::is_blank;
use crate::scanner::scan;

/// A run of `k` star characters.
pub open spec fn stars(k: nat) -> Seq<char> {
    Seq::new(k, |j: int| '*')
}

/// Peeling the first character off a concatenation whose left part is
/// non-empty.
proof fn lemma_peel(a: Seq<char>, b: Seq<char>)
    requires
        a.len() > 0,
    ensures
        (a + b).len() == a.len() + b.len(),
        (a + b).first() == a.first(),
        (a + b).drop_first() == a.drop_first() + b,
{
    assert((a + b).drop_first() =~= a.drop_first() + b);
}

/// Determinism: the header text is a function of the input alone, so
/// equal inputs yield equal results.
pub proof fn lemma_deterministic(s1: Seq<char>, s2: Seq<char>)
    requires
        s1 == s2,
    ensures
        extracted_headers(s1) == extracted_headers(s2),
{
}

/// Blank characters in front of the remaining input are transparent:
/// they emit nothing and do not stop the scan, both at the very start
/// and between header comments.
pub proof fn lemma_blank_prefix(w: Seq<char>, rest: Seq<char>, st: ScanState)
    requires
        forall|j: int| 0 <= j < w.len() ==> is_blank(w[j]),
        st is Init || st is NoPackage,
    ensures
        scan(st, w + rest) == scan(st, rest),
    decreases w.len(),
{
    if w.len() == 0 {
        assert(w + rest =~= rest);
    } else {
        lemma_peel(w, rest);
        assert(is_blank(w[0]));
        assert forall|j: int| 0 <= j < w.drop_first().len() implies is_blank(
            w.drop_first()[j],
        ) by {
            assert(w.drop_first()[j] == w[j + 1]);
        }
        lemma_blank_prefix(w.drop_first(), rest, st);
    }
}

/// A character that no transition of the waiting states accepts stops
/// the scan permanently: nothing is emitted, whatever follows it, even
/// a later comment.
pub proof fn lemma_stop_is_permanent(c: char, rest: Seq<char>, st: ScanState)
    requires
        st is Init || st is NoPackage,
        !is_blank(c),
        c != '/',
        st is Init ==> c != 'p',
    ensures
        scan(st, seq![c] + rest) == Seq::<char>::empty(),
{
    lemma_peel(seq![c], rest);
}

/// An input whose first non-blank character (if any) opens neither a
/// comment nor a package statement yields the empty header.
pub proof fn lemma_no_header(s: Seq<char>, i: int)
    requires
        0 <= i <= s.len(),
        forall|j: int| 0 <= j < i ==> is_blank(s[j]),
        i < s.len() ==> !is_blank(s[i]),
        i < s.len() ==> s[i] != 'p',
        i < s.len() && s[i] == '/' && i + 1 < s.len() ==> s[i + 1] != '/' && s[i + 1] != '*',
    ensures
        extracted_headers(s) == Seq::<char>::empty(),
{
    let w = s.subrange(0, i);
    let rest = s.skip(i);
    assert(s =~= w + rest);
    lemma_blank_prefix(w, rest, ScanState::Init);
    if i == s.len() {
        assert(rest.len() == 0);
    } else if s[i] != '/' {
        assert(rest =~= seq![s[i]] + s.skip(i + 1));
        lemma_stop_is_permanent(s[i], s.skip(i + 1), ScanState::Init);
    } else {
        assert(rest.first() == s[i]);
        assert(rest.drop_first() =~= s.skip(i + 1));
        assert(scan(ScanState::Init, rest) == scan(ScanState::OpenBar, s.skip(i + 1)));
        if i + 1 == s.len() {
            assert(s.skip(i + 1).len() == 0);
        } else {
            assert(s.skip(i + 1).first() == s[i + 1]);
            assert(scan(ScanState::OpenBar, s.skip(i + 1)) == Seq::<char>::empty());
        }
    }
}

/// The body of a line comment is emitted verbatim, newline included,
/// and the scan then waits for a further header at the start of a line.
proof fn lemma_line_body(t: Seq<char>, rest: Seq<char>)
    requires
        forall|j: int| 0 <= j < t.len() ==> t[j] != '\n',
    ensures
        scan(ScanState::Line, t + seq!['\n'] + rest) == t + seq!['\n'] + scan(
            ScanState::Init,
            rest,
        ),
    decreases t.len(),
{
    if t.len() == 0 {
        assert(t + seq!['\n'] + rest =~= seq!['\n'] + rest);
        lemma_peel(seq!['\n'], rest);
        assert((seq!['\n'] + rest).drop_first() =~= rest);
        assert(t + seq!['\n'] + scan(ScanState::Init, rest) =~= seq!['\n'] + scan(
            ScanState::Init,
            rest,
        ));
    } else {
        let c = t.first();
        assert(c != '\n');
        lemma_peel(t, seq!['\n']);
        lemma_peel(t + seq!['\n'], rest);
        assert((t + seq!['\n'] + rest).drop_first() =~= t.drop_first() + seq!['\n'] + rest);
        assert forall|j: int| 0 <= j < t.drop_first().len() implies t.drop_first()[j]
            != '\n' by {
            assert(t.drop_first()[j] == t[j + 1]);
        }
        lemma_line_body(t.drop_first(), rest);
        assert(seq![c] + (t.drop_first() + seq!['\n'] + scan(ScanState::Init, rest)) =~= t + seq![
            '\n',
        ] + scan(ScanState::Init, rest));
    }
}

/// A leading `//` line comment contributes its text together with its
/// terminating newline, delimiters stripped, and the scan continues
/// after it.
pub proof fn lemma_line_comment(t: Seq<char>, rest: Seq<char>, st: ScanState)
    requires
        st is Init || st is NoPackage,
        forall|j: int| 0 <= j < t.len() ==> t[j] != '\n',
    ensures
        scan(st, seq!['/', '/'] + t + seq!['\n'] + rest) == t + seq!['\n'] + scan(
            ScanState::Init,
            rest,
        ),
{
    let body = t + seq!['\n'] + rest;
    let s = seq!['/', '/'] + t + seq!['\n'] + rest;
    assert(s =~= seq!['/'] + (seq!['/'] + body));
    lemma_peel(seq!['/'], seq!['/'] + body);
    assert((seq!['/'] + (seq!['/'] + body)).drop_first() =~= seq!['/'] + body);
    assert(scan(st, s) == scan(ScanState::OpenBar, seq!['/'] + body));
    lemma_peel(seq!['/'], body);
    assert((seq!['/'] + body).drop_first() =~= body);
    assert(scan(ScanState::OpenBar, seq!['/'] + body) == scan(ScanState::Line, body));
    lemma_line_body(t, rest);
}

/// The body of a block comment with no inner star is emitted verbatim,
/// and the closing `*/` is stripped.
proof fn lemma_block_body(t: Seq<char>, rest: Seq<char>)
    requires
        forall|j: int| 0 <= j < t.len() ==> t[j] != '*',
    ensures
        scan(ScanState::Multiline, t + seq!['*', '/'] + rest) == t + scan(
            ScanState::NoPackage,
            rest,
        ),
    decreases t.len(),
{
    if t.len() == 0 {
        assert(t + seq!['*', '/'] + rest =~= seq!['*'] + (seq!['/'] + rest));
        lemma_peel(seq!['*'], seq!['/'] + rest);
        assert((seq!['*'] + (seq!['/'] + rest)).drop_first() =~= seq!['/'] + rest);
        assert(scan(ScanState::Multiline, seq!['*'] + (seq!['/'] + rest)) == scan(
            ScanState::EndMultiline,
            seq!['/'] + rest,
        ));
        lemma_peel(seq!['/'], rest);
        assert((seq!['/'] + rest).drop_first() =~= rest);
        assert(scan(ScanState::EndMultiline, seq!['/'] + rest) == scan(ScanState::NoPackage, rest));
        assert(t + scan(ScanState::NoPackage, rest) =~= scan(ScanState::NoPackage, rest));
    } else {
        let c = t.first();
        assert(c != '*');
        lemma_peel(t, seq!['*', '/']);
        lemma_peel(t + seq!['*', '/'], rest);
        assert((t + seq!['*', '/'] + rest).drop_first() =~= t.drop_first() + seq!['*', '/']
            + rest);
        assert forall|j: int| 0 <= j < t.drop_first().len() implies t.drop_first()[j]
            != '*' by {
            assert(t.drop_first()[j] == t[j + 1]);
        }
        lemma_block_body(t.drop_first(), rest);
        assert(seq![c] + (t.drop_first() + scan(ScanState::NoPackage, rest)) =~= t + scan(
            ScanState::NoPackage,
            rest,
        ));
    }
}

/// A leading `/* ... */` block comment with no inner star contributes
/// its text, delimiters stripped and no newline added, and the scan
/// continues after the closing `*/`.
pub proof fn lemma_block_comment(t: Seq<char>, rest: Seq<char>, st: ScanState)
    requires
        st is Init || st is NoPackage,
        forall|j: int| 0 <= j < t.len() ==> t[j] != '*',
    ensures
        scan(st, seq!['/', '*'] + t + seq!['*', '/'] + rest) == t + scan(
            ScanState::NoPackage,
            rest,
        ),
{
    let body = t + seq!['*', '/'] + rest;
    let s = seq!['/', '*'] + t + seq!['*', '/'] + rest;
    assert(s =~= seq!['/'] + (seq!['*'] + body));
    lemma_peel(seq!['/'], seq!['*'] + body);
    assert((seq!['/'] + (seq!['*'] + body)).drop_first() =~= seq!['*'] + body);
    assert(scan(st, s) == scan(ScanState::OpenBar, seq!['*'] + body));
    lemma_peel(seq!['*'], body);
    assert((seq!['*'] + body).drop_first() =~= body);
    assert(scan(ScanState::OpenBar, seq!['*'] + body) == scan(ScanState::Multiline, body));
    lemma_block_body(t, rest);
}

/// Whatever stands between a leading `p` and the first `;` is consumed
/// as a package statement and contributes nothing.
proof fn lemma_package_body(t: Seq<char>, rest: Seq<char>)
    requires
        forall|j: int| 0 <= j < t.len() ==> t[j] != ';',
    ensures
        scan(ScanState::Package, t + seq![';'] + rest) == scan(ScanState::NoPackage, rest),
    decreases t.len(),
{
    if t.len() == 0 {
        assert(t + seq![';'] + rest =~= seq![';'] + rest);
        lemma_peel(seq![';'], rest);
        assert((seq![';'] + rest).drop_first() =~= rest);
    } else {
        lemma_peel(t, seq![';']);
        lemma_peel(t + seq![';'], rest);
        assert((t + seq![';'] + rest).drop_first() =~= t.drop_first() + seq![';'] + rest);
        assert forall|j: int| 0 <= j < t.drop_first().len() implies t.drop_first()[j]
            != ';' by {
            assert(t.drop_first()[j] == t[j + 1]);
        }
        lemma_package_body(t.drop_first(), rest);
    }
}

/// A leading package statement — a `p` followed by anything up to the
/// first `;` — is fully elided from the header, and the scan continues
/// after the `;`, ready for blanks and further comments.
pub proof fn lemma_package_elided(t: Seq<char>, rest: Seq<char>)
    requires
        forall|j: int| 0 <= j < t.len() ==> t[j] != ';',
    ensures
        scan(ScanState::Init, seq!['p'] + t + seq![';'] + rest) == scan(
            ScanState::NoPackage,
            rest,
        ),
{
    let body = t + seq![';'] + rest;
    let s = seq!['p'] + t + seq![';'] + rest;
    assert(s =~= seq!['p'] + body);
    lemma_peel(seq!['p'], body);
    assert((seq!['p'] + body).drop_first() =~= body);
    lemma_package_body(t, rest);
}

/// Inside a block comment, after a first deferred star, every further
/// star of the run is re-accumulated until the `/` that closes the
/// comment.
proof fn lemma_star_run_pending(k: nat, rest: Seq<char>)
    ensures
        scan(ScanState::EndMultiline, stars(k) + seq!['/'] + rest) == stars(k) + scan(
            ScanState::NoPackage,
            rest,
        ),
    decreases k,
{
    if k == 0 {
        assert(stars(k) + seq!['/'] + rest =~= seq!['/'] + rest);
        lemma_peel(seq!['/'], rest);
        assert((seq!['/'] + rest).drop_first() =~= rest);
        assert(stars(k) + scan(ScanState::NoPackage, rest) =~= scan(ScanState::NoPackage, rest));
    } else {
        lemma_peel(stars(k), seq!['/']);
        lemma_peel(stars(k) + seq!['/'], rest);
        assert(stars(k).first() == '*');
        assert(stars(k).drop_first() =~= stars((k - 1) as nat));
        assert((stars(k) + seq!['/'] + rest).drop_first() =~= stars((k - 1) as nat) + seq!['/']
            + rest);
        lemma_star_run_pending((k - 1) as nat, rest);
        assert(seq!['*'] + (stars((k - 1) as nat) + scan(ScanState::NoPackage, rest)) =~= stars(k)
            + scan(ScanState::NoPackage, rest));
    }
}

/// Inside a block comment, a run of `k` stars followed by the closing
/// `/` keeps `k - 1` of the stars in the header: the last star is
/// consumed by the closing `*/`, the others are preserved literally.
pub proof fn lemma_star_run(k: nat, rest: Seq<char>)
    requires
        k >= 1,
    ensures
        scan(ScanState::Multiline, stars(k) + seq!['/'] + rest) == stars((k - 1) as nat) + scan(
            ScanState::NoPackage,
            rest,
        ),
{
    lemma_peel(stars(k), seq!['/']);
    lemma_peel(stars(k) + seq!['/'], rest);
    assert(stars(k).first() == '*');
    assert(stars(k).drop_first() =~= stars((k - 1) as nat));
    assert((stars(k) + seq!['/'] + rest).drop_first() =~= stars((k - 1) as nat) + seq!['/'] + rest);
    lemma_star_run_pending((k - 1) as nat, rest);
}

/// A block comment directly followed by a line comment contributes the
/// two texts in order, with no separator beyond what each comment
/// carries itself.
pub proof fn lemma_mixed_comments(a: Seq<char>, b: Seq<char>, rest: Seq<char>)
    requires
        forall|j: int| 0 <= j < a.len() ==> a[j] != '*',
        forall|j: int| 0 <= j < b.len() ==> b[j] != '\n',
    ensures
        scan(ScanState::Init, seq!['/', '*'] + a + seq!['*', '/'] + seq!['/', '/'] + b + seq!['\n']
            + rest) == a + b + seq!['\n'] + scan(ScanState::Init, rest),
{
    let inner = seq!['/', '/'] + b + seq!['\n'] + rest;
    let s = seq!['/', '*'] + a + seq!['*', '/'] + seq!['/', '/'] + b + seq!['\n'] + rest;
    assert(s =~= seq!['/', '*'] + a + seq!['*', '/'] + inner);
    lemma_block_comment(a, inner, ScanState::Init);
    lemma_line_comment(b, rest, ScanState::NoPackage);
    assert(a + (b + seq!['\n'] + scan(ScanState::Init, rest)) =~= a + b + seq!['\n'] + scan(
        ScanState::Init,
        rest,
    ));
}

/// A source text that is one line comment followed by trailing content
/// that contributes no further header yields exactly the comment's
/// text, newline retained.
pub proof fn lemma_line_comment_header(t: Seq<char>, rest: Seq<char>)
    requires
        forall|j: int| 0 <= j < t.len() ==> t[j] != '\n',
        scan(ScanState::Init, rest) == Seq::<char>::empty(),
    ensures
        extracted_headers(seq!['/', '/'] + t + seq!['\n'] + rest) == t + seq!['\n'],
{
    lemma_line_comment(t, rest, ScanState::Init);
    assert(t + seq!['\n'] + Seq::<char>::empty() =~= t + seq!['\n']);
}

/// A source text that is one starless block comment followed by
/// trailing content that contributes no further header yields exactly
/// the comment's text, with no newline added.
pub proof fn lemma_block_comment_header(t: Seq<char>, rest: Seq<char>)
    requires
        forall|j: int| 0 <= j < t.len() ==> t[j] != '*',
        scan(ScanState::NoPackage, rest) == Seq::<char>::empty(),
    ensures
        extracted_headers(seq!['/', '*'] + t + seq!['*', '/'] + rest) == t,
{
    lemma_block_comment(t, rest, ScanState::Init);
    assert(t + Seq::<char>::empty() =~= t);
}

} // verus!
