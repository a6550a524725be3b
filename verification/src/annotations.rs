//! The annotations that converted docs hold beside the text.

use vstd::prelude::*;
use vstd::string::*;
use crate::text::{holds_text, stands_at};

verus! {

/// The text with all matches of a regular expression replaced, or nothing if
/// the expression cannot be compiled.
pub uninterp spec fn regex_replaced(
    pattern: Seq<char>,
    text: Seq<char>,
    replacement: Seq<char>,
) -> Option<Seq<char>>;

/// The regular expression that the annotations of lists match.
pub open spec fn list_annotation() -> Seq<char> {
    "<!-- typlite:(?:begin|end):[\\w\\-]+ \\d+ -->"@
}

/// With what every annotation begins.
pub open spec fn annotation_start() -> Seq<char> {
    "<!-- typlite:"@
}

/// Whether a character is one that `\w` matches: an ASCII letter or digit, the
/// underscore, or one beyond ASCII that the expression takes away.
pub open spec fn is_word_char(c: char) -> bool {
    let n = c as int;
    ||| 'a' as int <= n <= 'z' as int
    ||| 'A' as int <= n <= 'Z' as int
    ||| '0' as int <= n <= '9' as int
    ||| c == '_'
    ||| n >= 128 && regex_replaced("\\w"@, seq![c], ""@) == Some(Seq::<char>::empty())
}

/// Whether a character is one that `\d` matches: an ASCII digit, or one beyond
/// ASCII that the expression takes away.
pub open spec fn is_digit_char(c: char) -> bool {
    let n = c as int;
    ||| '0' as int <= n <= '9' as int
    ||| n >= 128 && regex_replaced("\\d"@, seq![c], ""@) == Some(Seq::<char>::empty())
}

/// The annotation at one end of an element of the given kind and number.
pub open spec fn annotation_text(
    end: Seq<char>,
    kind: Seq<char>,
    number: Seq<char>,
) -> Seq<char> {
    annotation_start() + end + ":"@ + kind + " "@ + number + " -->"@
}

/// Whether an annotation can be made of the given parts.
pub open spec fn annotates(end: Seq<char>, kind: Seq<char>, number: Seq<char>) -> bool {
    &&& end == "begin"@ || end == "end"@
    &&& kind.len() > 0
    &&& forall|i: int| 0 <= i < kind.len() ==> kind[i] == '-' || is_word_char(#[trigger] kind[i])
    &&& number.len() > 0
    &&& forall|i: int| 0 <= i < number.len() ==> is_digit_char(#[trigger] number[i])
}

/// Whether a text is an annotation.
pub open spec fn is_annotation(text: Seq<char>) -> bool {
    exists|end: Seq<char>, kind: Seq<char>, number: Seq<char>| #[trigger]
        annotates(end, kind, number) && text == annotation_text(end, kind, number)
}

/// Whether the first `n` characters of a text are an annotation.
pub open spec fn annotated(text: Seq<char>, n: int) -> bool {
    0 < n <= text.len() && is_annotation(text.take(n))
}

/// A text without its annotations, which are taken away from the left.
pub open spec fn stripped(text: Seq<char>) -> Seq<char>
    decreases text.len(),
{
    if text.len() == 0 {
        text
    } else if exists|n: int| annotated(text, n) {
        stripped(text.skip(choose|n: int| annotated(text, n)))
    } else {
        seq![text[0]] + stripped(text.skip(1))
    }
}

/// `regex::Regex::new`, and `regex::Regex::replace_all` where that succeeds:
/// the outcome depends on the three texts alone. The expression for the
/// annotations of lists can be compiled, and it matches the annotations. With
/// the empty text as the replacement, all of them are taken away from the
/// left; what is left is not searched again.
#[verifier::external_body]
fn replace_matches(pattern: &str, text: &str, replacement: &str) -> (res: Option<String>)
    ensures
        regex_replaced(pattern@, text@, replacement@) == (match res {
            Some(replaced) => Some(replaced@),
            None => None,
        }),
        pattern@ == list_annotation() && replacement@ == ""@ ==> res is Some && res->0@ == stripped(
            text@,
        ),
{
    match regex::Regex::new(pattern) {
        Ok(expression) => Some(expression.replace_all(text, replacement).into_owned()),
        Err(_) => None,
    }
}

/// Removes the annotations of lists from a text.
pub fn remove_list_annotations(text: &str) -> (res: String)
    ensures
        res@ == stripped(text@),
{
    match replace_matches("<!-- typlite:(?:begin|end):[\\w\\-]+ \\d+ -->", text, "") {
        Some(res) => res,
        None => {
            assert(false);
            String::new()
        },
    }
}

proof fn lemma_annotation_shape(
    text: Seq<char>,
    n: int,
    end: Seq<char>,
    kind: Seq<char>,
    number: Seq<char>,
)
    requires
        0 < n <= text.len(),
        annotates(end, kind, number),
        text.take(n) == annotation_text(end, kind, number),
    ensures
        ({
            let from = 13int + end.len() + 1;
            let space = from + kind.len();
            &&& n == space + 1 + number.len() + 4
            &&& text[0] == '<'
            &&& end == "begin"@ <==> text[13] == 'b'
            &&& forall|i: int| from <= i < space ==> #[trigger] text[i] != ' '
            &&& text[space] == ' '
            &&& forall|i: int| space < i < space + 1 + number.len() ==> #[trigger] text[i] != ' '
            &&& text[space + 1 + number.len()] == ' '
            &&& text.subrange(0, 13) == annotation_start()
        }),
{
    reveal_strlit("<!-- typlite:");
    reveal_strlit("begin");
    reveal_strlit("end");
    reveal_strlit(":");
    reveal_strlit(" ");
    reveal_strlit(" -->");
    let whole = annotation_text(end, kind, number);
    let from = 13int + end.len() + 1;
    let space = from + kind.len();
    assert(whole.len() == space + 1 + number.len() + 4);
    assert(text.take(n).len() == n);
    assert forall|i: int| 0 <= i < n implies #[trigger] text[i] == whole[i] by {
        assert(text.take(n)[i] == text[i]);
    }
    assert(text[13] == end[0]);
    assert forall|i: int| from <= i < space implies #[trigger] text[i] != ' ' by {
        assert(text[i] == kind[i - from]);
    }
    assert forall|i: int| space < i < space + 1 + number.len() implies #[trigger] text[i]
        != ' ' by {
        assert(text[i] == number[i - space - 1]);
    }
    assert(text.subrange(0, 13) =~= annotation_start());
}

/// At most one annotation begins at the beginning of a text.
proof fn lemma_annotation_length(text: Seq<char>, m: int, n: int)
    requires
        annotated(text, m),
        annotated(text, n),
    ensures
        m == n,
{
    let (end, kind, number) = choose|end: Seq<char>, kind: Seq<char>, number: Seq<char>|
        #[trigger]
        annotates(end, kind, number) && text.take(m) == annotation_text(end, kind, number);
    let (end2, kind2, number2) = choose|end: Seq<char>, kind: Seq<char>, number: Seq<char>|
        #[trigger]
        annotates(end, kind, number) && text.take(n) == annotation_text(end, kind, number);
    lemma_annotation_shape(text, m, end, kind, number);
    lemma_annotation_shape(text, n, end2, kind2, number2);
    assert(end == end2);
    let from = 13int + end.len() + 1;
    assert(kind.len() == kind2.len()) by {
        if kind.len() < kind2.len() {
            assert(text[from + kind.len()] != ' ');
        }
        if kind2.len() < kind.len() {
            assert(text[from + kind2.len()] != ' ');
        }
    }
    let space = from + kind.len();
    assert(number.len() == number2.len()) by {
        if number.len() < number2.len() {
            assert(text[space + 1 + number.len()] != ' ');
        }
        if number2.len() < number.len() {
            assert(text[space + 1 + number2.len()] != ' ');
        }
    }
}

/// Where an annotation begins, its first characters do.
proof fn lemma_annotated_start(text: Seq<char>, n: int)
    requires
        annotated(text, n),
    ensures
        text[0] == '<',
        stands_at(text, 0, annotation_start()),
{
    let (end, kind, number) = choose|end: Seq<char>, kind: Seq<char>, number: Seq<char>|
        #[trigger]
        annotates(end, kind, number) && text.take(n) == annotation_text(end, kind, number);
    lemma_annotation_shape(text, n, end, kind, number);
    reveal_strlit("<!-- typlite:");
}

/// Removing the annotations takes the first one away, keeps what stands before
/// it, and treats what stands behind it as if it stood alone.
pub proof fn first_annotation_is_removed(
    before: Seq<char>,
    annotation: Seq<char>,
    behind: Seq<char>,
)
    requires
        is_annotation(annotation),
        forall|i: int, n: int|
            0 <= i < before.len() ==> !#[trigger] annotated(
                (before + annotation + behind).skip(i),
                n,
            ),
    ensures
        stripped(before + annotation + behind) == before + stripped(behind),
    decreases before.len(),
{
    let text = before + annotation + behind;
    if before.len() == 0 {
        let n = annotation.len() as int;
        assert(n > 0) by {
            reveal_strlit(" -->");
        }
        assert(text.take(n) =~= annotation);
        assert(annotated(text, n));
        let m = choose|m: int| annotated(text, m);
        lemma_annotation_length(text, m, n);
        assert(text.skip(n) =~= behind);
        assert(before + stripped(behind) =~= stripped(behind));
    } else {
        let rest = before.skip(1);
        assert(text.skip(0) =~= text);
        assert forall|n: int| !annotated(text, n) by {
            assert(!annotated(text.skip(0), n));
        }
        assert(text.skip(1) =~= rest + annotation + behind);
        assert forall|i: int, n: int| 0 <= i < rest.len() implies !#[trigger] annotated(
            (rest + annotation + behind).skip(i),
            n,
        ) by {
            assert((rest + annotation + behind).skip(i) =~= text.skip(i + 1));
            assert(!annotated(text.skip(i + 1), n));
        }
        first_annotation_is_removed(rest, annotation, behind);
        assert(seq![text[0]] + (rest + stripped(behind)) =~= before + stripped(behind));
    }
}

/// An annotation with no `<` before it is the first one.
pub proof fn annotation_behind_plain_text_is_removed(
    before: Seq<char>,
    annotation: Seq<char>,
    behind: Seq<char>,
)
    requires
        !before.contains('<'),
        is_annotation(annotation),
    ensures
        stripped(before + annotation + behind) == before + stripped(behind),
{
    let text = before + annotation + behind;
    assert forall|i: int, n: int| 0 <= i < before.len() implies !#[trigger] annotated(
        text.skip(i),
        n,
    ) by {
        if annotated(text.skip(i), n) {
            lemma_annotated_start(text.skip(i), n);
            assert(before[i] == '<');
        }
    }
    first_annotation_is_removed(before, annotation, behind);
}

/// The comments that open and close an element of a kind written in ASCII,
/// under a number in ASCII digits, are annotations: behind text without `<`
/// they are taken away.
pub proof fn comments_at_both_ends_are_removed(
    before: Seq<char>,
    kind: Seq<char>,
    number: Seq<char>,
    behind: Seq<char>,
)
    requires
        !before.contains('<'),
        kind.len() > 0,
        forall|i: int|
            0 <= i < kind.len() ==> {
                let c = #[trigger] kind[i];
                ||| c == '-'
                ||| c == '_'
                ||| 'a' as int <= c as int <= 'z' as int
                ||| 'A' as int <= c as int <= 'Z' as int
                ||| '0' as int <= c as int <= '9' as int
            },
        number.len() > 0,
        forall|i: int|
            0 <= i < number.len() ==> '0' as int <= (#[trigger] number[i]) as int <= '9' as int,
    ensures
        list_annotation() == "<!-- typlite:(?:begin|end):[\\w\\-]+ \\d+ -->"@,
        stripped(
            before + ("<!-- typlite:begin:"@ + kind + " "@ + number + " -->"@) + behind,
        ) == before + stripped(behind),
        stripped(before + ("<!-- typlite:end:"@ + kind + " "@ + number + " -->"@) + behind)
            == before + stripped(behind),
{
    reveal_strlit("<!-- typlite:");
    reveal_strlit("<!-- typlite:begin:");
    reveal_strlit("<!-- typlite:end:");
    reveal_strlit("begin");
    reveal_strlit("end");
    reveal_strlit(":");
    let first = "<!-- typlite:begin:"@ + kind + " "@ + number + " -->"@;
    let last = "<!-- typlite:end:"@ + kind + " "@ + number + " -->"@;
    assert("<!-- typlite:begin:"@ =~= annotation_start() + "begin"@ + ":"@);
    assert("<!-- typlite:end:"@ =~= annotation_start() + "end"@ + ":"@);
    assert(annotates("begin"@, kind, number));
    assert(annotates("end"@, kind, number));
    assert(is_annotation(first));
    assert(is_annotation(last));
    annotation_behind_plain_text_is_removed(before, first, behind);
    annotation_behind_plain_text_is_removed(before, last, behind);
}

/// A text that nowhere holds the beginning of an annotation stays as it is, so
/// one without any `<` does.
pub proof fn plain_text_is_kept(text: Seq<char>)
    requires
        !holds_text(text, annotation_start()) || !text.contains('<'),
    ensures
        stripped(text) == text,
    decreases text.len(),
{
    if text.len() > 0 {
        let rest = text.skip(1);
        assert forall|n: int| !annotated(text, n) by {
            if annotated(text, n) {
                lemma_annotated_start(text, n);
                assert(holds_text(text, annotation_start()));
            }
        }
        if !text.contains('<') {
            assert forall|i: int| 0 <= i < rest.len() implies rest[i] != '<' by {
                assert(rest[i] == text[i + 1]);
            }
        } else {
            assert forall|i: int| !stands_at(rest, i, annotation_start()) by {
                let n = annotation_start().len() as int;
                if stands_at(rest, i, annotation_start()) {
                    assert(text.subrange(i + 1, i + 1 + n) =~= rest.subrange(i, i + n));
                    assert(stands_at(text, i + 1, annotation_start()));
                }
            }
        }
        plain_text_is_kept(rest);
        assert(seq![text[0]] + rest =~= text);
    }
}

} // verus!
