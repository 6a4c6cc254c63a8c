//! Operations on texts.
use vstd::prelude::*;
use vstd::utf8::encode_utf8;

verus! {

/// `part` stands in `text`, beginning at `i`.
pub open spec fn occurs_at(text: Seq<char>, part: Seq<char>, i: int) -> bool {
    0 <= i <= text.len() - part.len() && text.subrange(i, i + part.len()) == part
}

/// `part` stands somewhere in `text`.
pub open spec fn occurs(text: Seq<char>, part: Seq<char>) -> bool {
    exists|i: int| occurs_at(text, part, i)
}

/// Unicode's `White_Space` property.
pub open spec fn is_white_space(c: char) -> bool {
    ||| '\u{9}' <= c <= '\u{d}'
    ||| c == ' '
    ||| c == '\u{85}'
    ||| c == '\u{a0}'
    ||| c == '\u{1680}'
    ||| '\u{2000}' <= c <= '\u{200a}'
    ||| c == '\u{2028}'
    ||| c == '\u{2029}'
    ||| c == '\u{202f}'
    ||| c == '\u{205f}'
    ||| c == '\u{3000}'
}

/// `text` without the white space at its beginning.
pub open spec fn trimmed_start(text: Seq<char>) -> Seq<char>
    decreases text.len(),
{
    if text.len() > 0 && is_white_space(text.first()) {
        trimmed_start(text.drop_first())
    } else {
        text
    }
}

/// `text` without the white space at its end.
pub open spec fn trimmed_end(text: Seq<char>) -> Seq<char>
    decreases text.len(),
{
    if text.len() > 0 && is_white_space(text.last()) {
        trimmed_end(text.drop_last())
    } else {
        text
    }
}

/// `text` without the white space around it.
pub open spec fn trimmed(text: Seq<char>) -> Seq<char> {
    trimmed_end(trimmed_start(text))
}

/// The number of characters before the first line break.
pub open spec fn line_len(text: Seq<char>) -> nat
    decreases text.len(),
{
    if text.len() == 0 || text.first() == '\n' {
        0
    } else {
        1 + line_len(text.drop_first())
    }
}

/// The lines of `text`: what stands between its line breaks.
pub open spec fn lines_of(text: Seq<char>) -> Seq<Seq<char>>
    decreases text.len(),
{
    let n = line_len(text) as int;
    if n >= text.len() {
        seq![text]
    } else {
        seq![text.take(n)] + lines_of(text.skip(n + 1))
    }
}

/// The number of bytes that `text` takes in UTF-8.
pub open spec fn byte_len(text: Seq<char>) -> nat {
    encode_utf8(text).len()
}

/// `c` is a decimal digit.
pub open spec fn is_digit(c: char) -> bool {
    '0' <= c <= '9'
}

/// The number that the decimal digits in `text` write.
pub open spec fn decimal_value(text: Seq<char>) -> nat
    decreases text.len(),
{
    if text.len() == 0 {
        0
    } else {
        10 * decimal_value(text.drop_last()) + (text.last() as nat - '0' as nat) as nat
    }
}

/// `text` holds digits, and nothing else.
pub open spec fn is_number(text: Seq<char>) -> bool {
    text.len() > 0 && forall|i: int| 0 <= i < text.len() ==> is_digit(#[trigger] text[i])
}

/// `text` without a `+` at its beginning.
pub open spec fn without_plus(text: Seq<char>) -> Seq<char> {
    if text.len() > 0 && text.first() == '+' {
        text.drop_first()
    } else {
        text
    }
}

/// The number that `text` writes: decimal digits and nothing else, but for a
/// `+` before them.
pub open spec fn u64_of(text: Seq<char>) -> Option<u64> {
    let digits = without_plus(text);
    if is_number(digits) && decimal_value(digits) <= u64::MAX {
        Some(decimal_value(digits) as u64)
    } else {
        None
    }
}

/// Calls `str::contains` with a text as the pattern.
#[verifier::external_body]
pub(crate) fn contains(text: &str, part: &str) -> (r: bool)
    ensures
        r == occurs(text@, part@),
{
    text.contains(part)
}

/// Calls `str::trim`, which takes off leading and trailing characters with
/// Unicode's `White_Space` property.
#[verifier::external_body]
pub(crate) fn trim(text: &str) -> (r: &str)
    ensures
        r@ == trimmed(text@),
{
    text.trim()
}

/// Calls `str::split_once` with a line break: the text before the first line
/// break and the text after it, `None` where there is no line break.
#[verifier::external_body]
fn split_line(text: &str) -> (r: Option<(&str, &str)>)
    ensures
        r is None <==> !text@.contains('\n'),
        r matches Some((line, rest)) ==> text@ == line@.push('\n') + rest@ && !line@.contains('\n'),
{
    text.split_once('\n')
}

/// Calls `str::parse` for a `u64`: an optional `+` before decimal digits; the
/// call fails on every other text and on a number that a `u64` cannot hold.
#[verifier::external_body]
pub(crate) fn parse_u64(text: &str) -> (r: Option<u64>)
    ensures
        r == u64_of(text@),
{
    text.parse::<u64>().ok()
}

/// The first line break ends the first line.
pub proof fn lemma_line_len(line: Seq<char>, rest: Seq<char>)
    requires
        !line.contains('\n'),
    ensures
        line_len(line) == line.len(),
        line_len(line.push('\n') + rest) == line.len(),
    decreases line.len(),
{
    let text = line.push('\n') + rest;
    if line.len() > 0 {
        assert(line[0] != '\n');
        assert(!line.drop_first().contains('\n')) by {
            assert forall|i: int| 0 <= i < line.len() - 1 implies line.drop_first()[i] != '\n' by {
                assert(line[i + 1] != '\n');
            }
        }
        lemma_line_len(line.drop_first(), rest);
        assert(text.drop_first() =~= line.drop_first().push('\n') + rest);
    }
}

/// A line, a line break and a text have that line and the lines of the text.
pub proof fn lemma_lines_of_cons(line: Seq<char>, rest: Seq<char>)
    requires
        !line.contains('\n'),
    ensures
        lines_of(line) == seq![line],
        lines_of(line.push('\n') + rest) == seq![line] + lines_of(rest),
{
    let text = line.push('\n') + rest;
    lemma_line_len(line, rest);
    assert(text.take(line.len() as int) =~= line);
    assert(text.skip(line.len() as int + 1) =~= rest);
}

/// Two texts with a line break between them have the lines of the one and of the
/// other.
pub proof fn lemma_lines_of_join(first: Seq<char>, second: Seq<char>)
    ensures
        lines_of(first.push('\n') + second) == lines_of(first) + lines_of(second),
    decreases first.len(),
{
    if first.contains('\n') {
        let n = line_len(first) as int;
        lemma_line_len_bound(first);
        let line = first.take(n);
        let rest = first.skip(n + 1);
        assert(first =~= line.push('\n') + rest);
        lemma_lines_of_cons(line, rest);
        lemma_lines_of_cons(line, rest.push('\n') + second);
        assert(first.push('\n') + second =~= line.push('\n') + (rest.push('\n') + second));
        lemma_lines_of_join(rest, second);
        assert(seq![line] + (lines_of(rest) + lines_of(second)) =~= (seq![line] + lines_of(rest))
            + lines_of(second));
    } else {
        lemma_lines_of_cons(first, second);
    }
}

/// In a text with a line break, the first line ends at it.
proof fn lemma_line_len_bound(text: Seq<char>)
    requires
        text.contains('\n'),
    ensures
        line_len(text) < text.len(),
        text[line_len(text) as int] == '\n',
        !text.take(line_len(text) as int).contains('\n'),
    decreases text.len(),
{
    if text.first() == '\n' {
        assert(text.take(0) =~= Seq::empty());
    } else {
        let rest = text.drop_first();
        let at = choose|i: int| 0 <= i < text.len() && text[i] == '\n';
        assert(rest[at - 1] == '\n');
        lemma_line_len_bound(rest);
        let n = line_len(text) as int;
        assert forall|i: int| 0 <= i < n implies text.take(n)[i] != '\n' by {
            if i > 0 {
                assert(rest.take(n - 1)[i - 1] != '\n');
            }
        }
    }
}

/// Two texts take as many bytes as the two together.
pub proof fn lemma_byte_len_join(first: Seq<char>, second: Seq<char>)
    ensures
        byte_len(first + second) == byte_len(first) + byte_len(second),
    decreases first.len(),
{
    if first.len() == 0 {
        assert(first + second =~= second);
    } else {
        lemma_byte_len_join(first.drop_first(), second);
        assert((first + second).drop_first() =~= first.drop_first() + second);
    }
}

/// Without the white space at its beginning a text is no longer.
proof fn lemma_trimmed_start_size(text: Seq<char>)
    ensures
        byte_len(trimmed_start(text)) <= byte_len(text),
    decreases text.len(),
{
    if text.len() > 0 && is_white_space(text.first()) {
        lemma_trimmed_start_size(text.drop_first());
    }
}

/// Without the white space at its end a text is no longer.
proof fn lemma_trimmed_end_size(text: Seq<char>)
    ensures
        byte_len(trimmed_end(text)) <= byte_len(text),
    decreases text.len(),
{
    if text.len() > 0 && is_white_space(text.last()) {
        lemma_trimmed_end_size(text.drop_last());
        lemma_byte_len_join(text.drop_last(), seq![text.last()]);
        assert(text.drop_last() + seq![text.last()] =~= text);
    }
}

/// No line of what is left of a text without the white space around it is
/// longer than the text.
pub proof fn lemma_line_sizes(text: Seq<char>)
    ensures
        forall|i: int|
            0 <= i < lines_of(trimmed(text)).len() ==> byte_len(
                #[trigger] lines_of(trimmed(text))[i],
            ) <= byte_len(text),
{
    lemma_trimmed_start_size(text);
    lemma_trimmed_end_size(trimmed_start(text));
    lemma_lines_within(trimmed(text));
}

/// No line of a text is longer than the text.
proof fn lemma_lines_within(text: Seq<char>)
    ensures
        forall|i: int|
            0 <= i < lines_of(text).len() ==> byte_len(#[trigger] lines_of(text)[i]) <= byte_len(
                text,
            ),
    decreases text.len(),
{
    let n = line_len(text) as int;
    if n < text.len() {
        let line = text.take(n);
        let rest = text.skip(n + 1);
        lemma_lines_within(rest);
        lemma_byte_len_join(line, text.skip(n));
        lemma_byte_len_join(seq![text[n]], rest);
        assert(line + text.skip(n) =~= text);
        assert(seq![text[n]] + rest =~= text.skip(n));
        assert forall|i: int| 0 <= i < lines_of(text).len() implies byte_len(
            #[trigger] lines_of(text)[i],
        ) <= byte_len(text) by {
            if i > 0 {
                assert(lines_of(text)[i] == lines_of(rest)[i - 1]);
            }
        }
    }
}

/// The lines of a text.
pub fn split_lines(text: &str) -> (r: Vec<&str>)
    ensures
        r@.len() == lines_of(text@).len(),
        forall|i: int| 0 <= i < r@.len() ==> (#[trigger] r@[i])@ == lines_of(text@)[i],
{
    let mut lines: Vec<&str> = Vec::new();
    let mut rest: &str = text;
    let ghost mut done: Seq<Seq<char>> = Seq::empty();
    loop
        invariant
            done.len() == lines@.len(),
            forall|i: int| 0 <= i < done.len() ==> (#[trigger] lines@[i])@ == done[i],
            done + lines_of(rest@) == lines_of(text@),
        decreases rest@.len(),
    {
        match split_line(rest) {
            Some((line, after)) => {
                proof {
                    lemma_lines_of_cons(line@, after@);
                    assert(done + (seq![line@] + lines_of(after@)) =~= done.push(line@) + lines_of(
                        after@,
                    ));
                    done = done.push(line@);
                }
                lines.push(line);
                rest = after;
            },
            None => {
                proof {
                    lemma_lines_of_cons(rest@, Seq::empty());
                }
                lines.push(rest);
                return lines;
            },
        }
    }
}

} // verus!
