//! What holds of the operations on texts.

use vstd::prelude::*;
use vstd::utf8::encode_utf8;
use crate::order::{lex_le, path_le};
use crate::text::{
    fenced, first_line, holds_text, is_white, joined, line_end, replaced, stands_at, trimmed,
    trimmed_end, trimmed_start,
};

verus! {

proof fn lemma_line_end_at(a: Seq<char>, b: Seq<char>)
    requires
        !a.contains('\n'),
    ensures
        line_end(a) == a.len(),
        line_end(a + seq!['\n'] + b) == a.len(),
    decreases a.len(),
{
    let s = a + seq!['\n'] + b;
    if a.len() > 0 {
        let rest = a.skip(1);
        assert forall|i: int| 0 <= i < rest.len() implies rest[i] != '\n' by {
            assert(rest[i] == a[i + 1]);
        }
        lemma_line_end_at(rest, b);
        assert(s.skip(1) =~= rest + seq!['\n'] + b);
        assert(a[0] != '\n');
        assert(s[0] == a[0]);
    }
}

/// A line without a line ending is the first line of what it begins: on its
/// own, before a line feed, and before a carriage return with a line feed.
pub proof fn first_line_ends_at_the_line_ending(line: Seq<char>, behind: Seq<char>)
    requires
        !line.contains('\n'),
    ensures
        first_line(line) == line,
        line.len() == 0 || line.last() != '\r' ==> first_line(line + seq!['\n'] + behind) == line,
        first_line(line + seq!['\r', '\n'] + behind) == line,
{
    lemma_line_end_at(line, behind);
    assert(line.take(line.len() as int) =~= line);
    let plain = line + seq!['\n'] + behind;
    if line.len() > 0 {
        assert(plain[line.len() - 1] == line.last());
    }
    assert(plain.take(line.len() as int) =~= line);
    let longer = line.push('\r');
    assert forall|i: int| 0 <= i < longer.len() implies longer[i] != '\n' by {
        if i < line.len() {
            assert(longer[i] == line[i]);
        }
    }
    lemma_line_end_at(longer, behind);
    let other = line + seq!['\r', '\n'] + behind;
    assert(other =~= longer + seq!['\n'] + behind);
    assert(other.take(line.len() as int) =~= line);
}

/// The first line is as long as can be: a text goes on behind it with a line
/// feed, or with a carriage return and a line feed, or not at all.
pub proof fn first_line_is_maximal(s: Seq<char>)
    ensures
        first_line(s).is_prefix_of(s),
        !s.contains('\n') ==> first_line(s) == s,
        first_line(s).len() < s.len() ==> {
            let n = first_line(s).len() as int;
            s[n] == '\n' || (s[n] == '\r' && n + 1 < s.len() && s[n + 1] == '\n')
        },
{
    crate::text::first_line_is_one_line(s);
    if s.contains('\n') {
        let k = s.index_of_first('\n')->0;
        s.index_of_first_ensures('\n');
        let a = s.take(k);
        let b = s.skip(k + 1);
        assert forall|i: int| 0 <= i < a.len() implies a[i] != '\n' by {
            assert(a[i] == s[i]);
        }
        assert(s =~= a + seq!['\n'] + b);
        if a.len() > 0 && a.last() == '\r' {
            let c = a.drop_last();
            assert(s =~= c + seq!['\r', '\n'] + b);
            assert forall|i: int| 0 <= i < c.len() implies c[i] != '\n' by {
                assert(c[i] == a[i]);
            }
            first_line_ends_at_the_line_ending(c, b);
        } else {
            first_line_ends_at_the_line_ending(a, b);
        }
    } else {
        first_line_ends_at_the_line_ending(s, Seq::empty());
    }
}

/// A text holds another one exactly if the other stands between two parts of
/// it.
pub proof fn text_is_held_between_two_parts(s: Seq<char>, pat: Seq<char>)
    ensures
        holds_text(s, pat) <==> exists|a: Seq<char>, b: Seq<char>| s == #[trigger] ((a + pat) + b),
{
    if holds_text(s, pat) {
        let i = choose|i: int| stands_at(s, i, pat);
        let a = s.take(i);
        let b = s.skip(i + pat.len());
        assert forall|k: int| 0 <= k < pat.len() implies s[i + k] == pat[k] by {
            assert(s.subrange(i, i + pat.len())[k] == s[i + k]);
        }
        assert(s =~= (a + pat) + b);
    }
    if exists|a: Seq<char>, b: Seq<char>| s == #[trigger] ((a + pat) + b) {
        let (a, b) = choose|a: Seq<char>, b: Seq<char>| s == #[trigger] ((a + pat) + b);
        assert(s.subrange(a.len() as int, a.len() as int + pat.len()) =~= pat);
        assert(stands_at(s, a.len() as int, pat));
    }
}

/// Replacing leaves a text alone that does not hold what is to be replaced.
pub proof fn replacing_nothing_changes_nothing(s: Seq<char>, pat: Seq<char>, rep: Seq<char>)
    requires
        pat.len() > 0,
        forall|a: Seq<char>, b: Seq<char>| s != #[trigger] ((a + pat) + b),
    ensures
        replaced(s, pat, rep) == s,
    decreases s.len(),
{
    text_is_held_between_two_parts(s, pat);
    if s.len() > 0 {
        assert(!stands_at(s, 0, pat));
        let rest = s.skip(1);
        assert forall|a: Seq<char>, b: Seq<char>| rest != #[trigger] ((a + pat) + b) by {
            if rest == (a + pat) + b {
                let c = seq![s[0]] + a;
                assert(s =~= seq![s[0]] + rest);
                assert(seq![s[0]] + ((a + pat) + b) =~= (c + pat) + b);
                assert(s == (c + pat) + b);
            }
        }
        replacing_nothing_changes_nothing(rest, pat, rep);
        assert(seq![s[0]] + rest =~= s);
    }
}

/// Replacing puts the replacement in the place of the first occurrence, keeps
/// what stands before it, and goes on behind it.
pub proof fn first_occurrence_is_replaced(
    a: Seq<char>,
    pat: Seq<char>,
    b: Seq<char>,
    rep: Seq<char>,
)
    requires
        pat.len() > 0,
        forall|i: int|
            0 <= i < a.len() ==> (#[trigger] (a + pat + b).subrange(i, i + pat.len())) != pat,
    ensures
        replaced(a + pat + b, pat, rep) == a + rep + replaced(b, pat, rep),
    decreases a.len(),
{
    let s = a + pat + b;
    let n = pat.len() as int;
    if a.len() == 0 {
        assert(s.subrange(0, n) =~= pat);
        assert(stands_at(s, 0, pat));
        assert(s.skip(n) =~= b);
        assert(a + rep + replaced(b, pat, rep) =~= rep + replaced(b, pat, rep));
    } else {
        assert(s.subrange(0, 0 + n) != pat);
        assert(!stands_at(s, 0, pat));
        let rest = a.skip(1);
        let t = rest + pat + b;
        assert(s.skip(1) =~= t);
        assert forall|i: int| 0 <= i < rest.len() implies (#[trigger] t.subrange(i, i + n))
            != pat by {
            assert(t.subrange(i, i + n) =~= s.subrange(i + 1, i + 1 + n));
            assert(s.subrange(i + 1, i + 1 + n) != pat);
        }
        first_occurrence_is_replaced(rest, pat, b, rep);
        assert(seq![s[0]] + (rest + rep + replaced(b, pat, rep)) =~= a + rep + replaced(
            b,
            pat,
            rep,
        ));
    }
}

/// Whether a text is white space throughout.
pub open spec fn all_white(s: Seq<char>) -> bool {
    forall|i: int| 0 <= i < s.len() ==> is_white(#[trigger] s[i])
}

proof fn lemma_trimmed_start(a: Seq<char>, m: Seq<char>)
    requires
        all_white(a),
        m.len() == 0 || !is_white(m[0]),
    ensures
        trimmed_start(a + m) == m,
    decreases a.len(),
{
    if a.len() == 0 {
        assert(a + m =~= m);
    } else {
        let rest = a.skip(1);
        assert forall|i: int| 0 <= i < rest.len() implies is_white(#[trigger] rest[i]) by {
            assert(rest[i] == a[i + 1]);
        }
        lemma_trimmed_start(rest, m);
        assert(is_white(a[0]));
        assert((a + m).skip(1) =~= rest + m);
    }
}

proof fn lemma_trimmed_end(m: Seq<char>, b: Seq<char>)
    requires
        all_white(b),
        m.len() == 0 || !is_white(m.last()),
    ensures
        trimmed_end(m + b) == m,
    decreases b.len(),
{
    if b.len() == 0 {
        assert(m + b =~= m);
    } else {
        let init = b.drop_last();
        assert forall|i: int| 0 <= i < init.len() implies is_white(#[trigger] init[i]) by {
            assert(init[i] == b[i]);
        }
        lemma_trimmed_end(m, init);
        assert(is_white(b[b.len() - 1]));
        assert((m + b).drop_last() =~= m + init);
    }
}

/// Trimming takes the white space away from both ends of a text, and nothing
/// else.
pub proof fn trimming_keeps_the_middle(a: Seq<char>, m: Seq<char>, b: Seq<char>)
    requires
        all_white(a),
        all_white(b),
        m.len() > 0 ==> !is_white(m[0]) && !is_white(m.last()),
    ensures
        trimmed(a + m + b) == m,
{
    if m.len() > 0 {
        assert(a + m + b =~= a + (m + b));
        lemma_trimmed_start(a, m + b);
        lemma_trimmed_end(m, b);
    } else {
        let s = a + b;
        assert(a + m + b =~= s + m);
        assert forall|i: int| 0 <= i < s.len() implies is_white(#[trigger] s[i]) by {
            if i < a.len() {
                assert(s[i] == a[i]);
            } else {
                assert(s[i] == b[i - a.len()]);
            }
        }
        lemma_trimmed_start(s, m);
        assert(trimmed_end(m) == m);
    }
}

/// The white characters are those with the Unicode property `White_Space`,
/// one by one.
pub proof fn white_characters(c: char)
    ensures
        is_white(c) <==> seq![
            '\t', '\n', '\u{b}', '\u{c}', '\r', ' ', '\u{85}', '\u{a0}', '\u{1680}', '\u{2000}',
            '\u{2001}', '\u{2002}', '\u{2003}', '\u{2004}', '\u{2005}', '\u{2006}', '\u{2007}',
            '\u{2008}', '\u{2009}', '\u{200a}', '\u{2028}', '\u{2029}', '\u{202f}', '\u{205f}',
            '\u{3000}',
        ].contains(c),
{
    let all = seq![
        '\t', '\n', '\u{b}', '\u{c}', '\r', ' ', '\u{85}', '\u{a0}', '\u{1680}', '\u{2000}',
        '\u{2001}', '\u{2002}', '\u{2003}', '\u{2004}', '\u{2005}', '\u{2006}', '\u{2007}',
        '\u{2008}', '\u{2009}', '\u{200a}', '\u{2028}', '\u{2029}', '\u{202f}', '\u{205f}',
        '\u{3000}',
    ];
    let n = c as u32;
    if is_white(c) {
        let k: int = if n <= 0xd {
            n - 9
        } else if n == 0x20 {
            5
        } else if n == 0x85 {
            6
        } else if n == 0xa0 {
            7
        } else if n == 0x1680 {
            8
        } else if n <= 0x200a {
            9 + (n - 0x2000)
        } else if n == 0x2028 {
            20
        } else if n == 0x2029 {
            21
        } else if n == 0x202f {
            22
        } else if n == 0x205f {
            23
        } else {
            24
        };
        assert(all[k] == c);
    }
}

/// A text is fenced exactly if something can be put behind the opening
/// character, and something before the closing one, to give the text.
pub proof fn fences_stand_at_the_ends(s: Seq<char>, open: char, close: char)
    ensures
        fenced(s, open, close) <==> (exists|x: Seq<char>| s == #[trigger] (seq![open] + x))
            && exists|y: Seq<char>| s == #[trigger] (y + seq![close]),
{
    if fenced(s, open, close) {
        assert(s =~= seq![open] + s.skip(1));
        assert(s =~= s.drop_last() + seq![close]);
    }
}

/// Text comes after what it begins with.
pub proof fn lex_puts_beginnings_first(a: Seq<char>, b: Seq<char>)
    ensures
        lex_le(a, a + b),
        lex_le(a + b, a) ==> b.len() == 0,
    decreases a.len(),
{
    if a.len() > 0 {
        assert((a + b).skip(1) =~= a.skip(1) + b);
        lex_puts_beginnings_first(a.skip(1), b);
    }
}

/// Of two texts that differ first in one place, the one with the smaller code
/// point there comes first, whatever follows.
pub proof fn lex_goes_by_the_first_difference(
    p: Seq<char>,
    c: char,
    d: char,
    x: Seq<char>,
    y: Seq<char>,
)
    requires
        c != d,
    ensures
        lex_le(p + seq![c] + x, p + seq![d] + y) <==> (c as int) < (d as int),
    decreases p.len(),
{
    let s = p + seq![c] + x;
    let t = p + seq![d] + y;
    if p.len() > 0 {
        assert(s.skip(1) =~= p.skip(1) + seq![c] + x);
        assert(t.skip(1) =~= p.skip(1) + seq![d] + y);
        lex_goes_by_the_first_difference(p.skip(1), c, d, x, y);
    }
}

/// Of two paths the one with fewer bytes comes first, and where they have as
/// many, the one that comes first in lexicographic order.
pub proof fn shorter_paths_come_first(a: Seq<char>, b: Seq<char>)
    ensures
        encode_utf8(a).len() < encode_utf8(b).len() ==> path_le(a, b) && !path_le(b, a),
        encode_utf8(a).len() == encode_utf8(b).len() ==> path_le(a, b) == lex_le(a, b),
{
}

/// Joining is joining the two halves, with the separator between them.
pub proof fn joining_halves(a: Seq<Seq<char>>, b: Seq<Seq<char>>, sep: Seq<char>)
    ensures
        a.len() > 0 && b.len() > 0 ==> joined(a + b, sep) == joined(a, sep) + sep + joined(b, sep),
        joined(Seq::<Seq<char>>::empty(), sep) == Seq::<char>::empty(),
        a.len() == 1 ==> joined(a, sep) == a[0],
    decreases b.len(),
{
    if a.len() > 0 && b.len() > 0 {
        let all = a + b;
        assert(all.last() == b.last());
        assert(all.drop_last() =~= a + b.drop_last());
        if b.len() == 1 {
            assert(a + b.drop_last() =~= a);
        } else {
            joining_halves(a, b.drop_last(), sep);
            assert(joined(a, sep) + sep + joined(b.drop_last(), sep) + sep + b.last() =~= joined(
                a,
                sep,
            ) + sep + (joined(b.drop_last(), sep) + sep + b.last()));
        }
    }
}

} // verus!
