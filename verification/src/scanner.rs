//! The header scanner: a deterministic finite-state machine over the
//! characters of a source text. Its behaviour is fixed by the spec
//! function [`scan`]; the executable [`extract_java_headers`] is proved
//! to return exactly what `scan` emits from the initial state.

use vstd::prelude::*;

verus! {

/// The states of the header scanner.
#[derive(Clone, Copy)]
pub enum ScanState {
    /// At the start of a line or region, deciding whether a header
    /// comment or a package statement begins here.
    Init,
    /// Tentatively inside a `package ...;` statement, consuming
    /// characters until the terminating `;`.
    Package,
    /// After a package statement or a closed block comment, skipping
    /// blank separators before the next possible comment.
    NoPackage,
    /// Just consumed a single `/`; the next character decides whether a
    /// line or a block comment opens.
    OpenBar,
    /// Inside a `//` line comment, up to and including its newline.
    Line,
    /// Inside a `/* ... */` block comment.
    Multiline,
    /// Inside a block comment, just after a `*` that might close it.
    EndMultiline,
}

/// The characters that are transparent between header comments.
pub open spec fn is_blank(c: char) -> bool {
    c == ' ' || c == '\t' || c == '\n'
}

/// The characters the scanner emits into the header buffer while it
/// consumes `s`, starting in state `st`. A character that no transition
/// of the current state accepts stops the scan permanently: nothing
/// further is emitted, whatever the rest of `s` holds.
pub open spec fn scan(st: ScanState, s: Seq<char>) -> Seq<char>
    decreases s.len(),
{
    if s.len() == 0 {
        Seq::empty()
    } else {
        let ch = s.first();
        let rest = s.drop_first();
        match st {
            ScanState::Init => {
                if is_blank(ch) {
                    scan(ScanState::Init, rest)
                } else if ch == 'p' {
                    scan(ScanState::Package, rest)
                } else if ch == '/' {
                    scan(ScanState::OpenBar, rest)
                } else {
                    Seq::empty()
                }
            },
            ScanState::Package => {
                if ch == ';' {
                    scan(ScanState::NoPackage, rest)
                } else {
                    scan(ScanState::Package, rest)
                }
            },
            ScanState::NoPackage => {
                if is_blank(ch) {
                    scan(ScanState::NoPackage, rest)
                } else if ch == '/' {
                    scan(ScanState::OpenBar, rest)
                } else {
                    Seq::empty()
                }
            },
            ScanState::OpenBar => {
                if ch == '/' {
                    scan(ScanState::Line, rest)
                } else if ch == '*' {
                    scan(ScanState::Multiline, rest)
                } else {
                    Seq::empty()
                }
            },
            ScanState::Line => {
                if ch == '\n' {
                    seq!['\n'] + scan(ScanState::Init, rest)
                } else {
                    seq![ch] + scan(ScanState::Line, rest)
                }
            },
            ScanState::Multiline => {
                if ch == '*' {
                    scan(ScanState::EndMultiline, rest)
                } else {
                    seq![ch] + scan(ScanState::Multiline, rest)
                }
            },
            ScanState::EndMultiline => {
                if ch == '/' {
                    scan(ScanState::NoPackage, rest)
                } else if ch == '*' {
                    seq!['*'] + scan(ScanState::EndMultiline, rest)
                } else {
                    seq!['*', ch] + scan(ScanState::Multiline, rest)
                }
            },
        }
    }
}

/// The header text of a source file: what the scanner emits from its
/// initial state over the whole text.
pub open spec fn extracted_headers(s: Seq<char>) -> Seq<char> {
    scan(ScanState::Init, s)
}

/// Relies on String::push: appends the given character to the end of
/// the string.
#[verifier::external_body]
fn push_char(buf: &mut String, c: char)
    ensures
        final(buf)@ == old(buf)@.push(c),
{
    buf.push(c);
}

/// Dropping the first character of the suffix of `s` at `i` gives the
/// suffix at `i + 1`.
proof fn lemma_skip_step(s: Seq<char>, i: int)
    requires
        0 <= i < s.len(),
    ensures
        s.skip(i).len() == s.len() - i,
        s.skip(i).first() == s[i],
        s.skip(i).drop_first() == s.skip(i + 1),
{
    assert(s.skip(i).drop_first() =~= s.skip(i + 1));
}

/// Appending the empty sequence changes nothing.
proof fn lemma_concat_empty(a: Seq<char>)
    ensures
        a + Seq::<char>::empty() == a,
{
    assert(a + Seq::<char>::empty() =~= a);
}

/// Pushing `c` onto `a` and then appending `b` is the same as appending
/// `c` followed by `b`.
proof fn lemma_push_concat(a: Seq<char>, c: char, b: Seq<char>)
    ensures
        a.push(c) + b == a + (seq![c] + b),
{
    assert(a.push(c) + b =~= a + (seq![c] + b));
}

/// Pushing `c1` then `c2` onto `a` and then appending `b` is the same
/// as appending the pair followed by `b`.
proof fn lemma_push2_concat(a: Seq<char>, c1: char, c2: char, b: Seq<char>)
    ensures
        a.push(c1).push(c2) + b == a + (seq![c1, c2] + b),
{
    assert(a.push(c1).push(c2) + b =~= a + (seq![c1, c2] + b));
}

/// Returns the concatenated text of the header comments of `contents`
/// with the comment delimiters stripped: the contiguous run of `//` and
/// `/* ... */` comments at the top of the text, across blank lines and
/// at most one leading `package ...;` statement, up to the first
/// character that belongs to none of those.
pub fn extract_java_headers(contents: &String) -> (result: String)
    ensures
        result@ == extracted_headers(contents@),
{
    let text: &str = contents.as_str();
    let n: usize = text.unicode_len();
    let mut state = ScanState::Init;
    let mut header = String::new();
    let mut i: usize = 0;
    proof {
        assert(text@.skip(0) =~= text@);
        assert(Seq::<char>::empty() + scan(ScanState::Init, text@) =~= scan(
            ScanState::Init,
            text@,
        ));
    }
    while i < n
        invariant
            text@ == contents@,
            n == text@.len(),
            i <= n,
            extracted_headers(contents@) == header@ + scan(state, text@.skip(i as int)),
        decreases n - i,
    {
        let ch = text.get_char(i);
        proof {
            lemma_skip_step(text@, i as int);
        }
        match state {
            ScanState::Init => {
                if ch == ' ' || ch == '\t' || ch == '\n' {
                } else if ch == 'p' {
                    state = ScanState::Package;
                } else if ch == '/' {
                    state = ScanState::OpenBar;
                } else {
                    proof {
                        lemma_concat_empty(header@);
                    }
                    return header;
                }
            },
            ScanState::Package => {
                if ch == ';' {
                    state = ScanState::NoPackage;
                }
            },
            ScanState::NoPackage => {
                if ch == ' ' || ch == '\t' || ch == '\n' {
                } else if ch == '/' {
                    state = ScanState::OpenBar;
                } else {
                    proof {
                        lemma_concat_empty(header@);
                    }
                    return header;
                }
            },
            ScanState::OpenBar => {
                if ch == '/' {
                    state = ScanState::Line;
                } else if ch == '*' {
                    state = ScanState::Multiline;
                } else {
                    proof {
                        lemma_concat_empty(header@);
                    }
                    return header;
                }
            },
            ScanState::Line => {
                let ghost h0 = header@;
                push_char(&mut header, ch);
                if ch == '\n' {
                    state = ScanState::Init;
                    proof {
                        lemma_push_concat(h0, ch, scan(ScanState::Init, text@.skip(i as int + 1)));
                    }
                } else {
                    proof {
                        lemma_push_concat(h0, ch, scan(ScanState::Line, text@.skip(i as int + 1)));
                    }
                }
            },
            ScanState::Multiline => {
                if ch == '*' {
                    state = ScanState::EndMultiline;
                } else {
                    let ghost h0 = header@;
                    push_char(&mut header, ch);
                    proof {
                        lemma_push_concat(h0, ch, scan(ScanState::Multiline, text@.skip(i as int + 1)));
                    }
                }
            },
            ScanState::EndMultiline => {
                if ch == '/' {
                    state = ScanState::NoPackage;
                } else if ch == '*' {
                    let ghost h0 = header@;
                    push_char(&mut header, '*');
                    proof {
                        lemma_push_concat(h0, '*', scan(ScanState::EndMultiline, text@.skip(i as int + 1)));
                    }
                } else {
                    let ghost h0 = header@;
                    push_char(&mut header, '*');
                    push_char(&mut header, ch);
                    state = ScanState::Multiline;
                    proof {
                        lemma_push2_concat(h0, '*', ch, scan(ScanState::Multiline, text@.skip(i as int + 1)));
                    }
                }
            },
        }
        i = i + 1;
    }
    proof {
        assert(text@.skip(n as int) =~= Seq::<char>::empty());
        lemma_concat_empty(header@);
    }
    header
}

} // verus!
