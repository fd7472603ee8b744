use vstd::prelude::*;

verus! {

/// Whether a character belongs to one of Unicode's number categories.
pub uninterp spec fn numeric_char(c: char) -> bool;

/// Relies on `char::is_numeric`: whether `c` has one of Unicode's general
/// categories for numbers, a property of the character alone.
#[verifier::external_body]
fn is_numeric(c: char) -> (r: bool)
    ensures
        r == numeric_char(c),
{
    c.is_numeric()
}

/// A character that can be part of a number of a position command, or separate two.
pub open spec fn kept_char(c: char) -> bool {
    numeric_char(c) || c == ' ' || c == '.' || c == '-'
}

/// The characters of `s` that `kept_char` accepts, in order.
pub open spec fn kept_chars(s: Seq<char>) -> Seq<char>
    decreases s.len(),
{
    if s.len() == 0 {
        seq![]
    } else if kept_char(s.last()) {
        kept_chars(s.drop_last()).push(s.last())
    } else {
        kept_chars(s.drop_last())
    }
}

/// `s` without its leading spaces.
pub open spec fn strip_front(s: Seq<char>) -> Seq<char>
    decreases s.len(),
{
    if s.len() > 0 && s[0] == ' ' {
        strip_front(s.drop_first())
    } else {
        s
    }
}

/// `s` without its trailing spaces.
pub open spec fn strip_back(s: Seq<char>) -> Seq<char>
    decreases s.len(),
{
    if s.len() > 0 && s.last() == ' ' {
        strip_back(s.drop_last())
    } else {
        s
    }
}

/// `s` without its leading and trailing spaces.
pub open spec fn trim_spaces(s: Seq<char>) -> Seq<char> {
    strip_back(strip_front(s))
}

/// The fields joined with a single space between neighbours.
pub open spec fn join_fields(fields: Seq<Seq<char>>) -> Seq<char>
    decreases fields.len(),
{
    if fields.len() == 0 {
        seq![]
    } else if fields.len() == 1 {
        fields[0]
    } else {
        join_fields(fields.drop_last()) + seq![' '] + fields.last()
    }
}

/// No field holds a space.
pub open spec fn spaceless(fields: Seq<Seq<char>>) -> bool {
    forall|i: int, k: int|
        0 <= i < fields.len() && 0 <= k < fields[i].len() ==> #[trigger] fields[i][k] != ' '
}

fn keep_command_chars(text: &Vec<char>) -> (r: Vec<char>)
    ensures
        r@ == kept_chars(text@),
{
    let mut r: Vec<char> = Vec::new();
    let mut i: usize = 0;
    while i < text.len()
        invariant
            i <= text.len(),
            r@ == kept_chars(text@.subrange(0, i as int)),
        decreases text.len() - i,
    {
        let c = text[i];
        assert(text@.subrange(0, i + 1).drop_last() =~= text@.subrange(0, i as int));
        if is_numeric(c) || c == ' ' || c == '.' || c == '-' {
            r.push(c);
        }
        i += 1;
    }
    assert(text@.subrange(0, text.len() as int) =~= text@);
    r
}

fn trim_command_spaces(text: &Vec<char>) -> (r: Vec<char>)
    ensures
        r@ == trim_spaces(text@),
{
    let n = text.len();
    let mut lo: usize = 0;
    assert(text@.subrange(0, n as int) =~= text@);
    while lo < n && text[lo] == ' '
        invariant
            n == text.len(),
            lo <= n,
            strip_front(text@) == strip_front(text@.subrange(lo as int, n as int)),
        decreases n - lo,
    {
        assert(text@.subrange(lo as int, n as int).drop_first() =~= text@.subrange(
            lo + 1,
            n as int,
        ));
        lo += 1;
    }
    let ghost front = text@.subrange(lo as int, n as int);
    assert(strip_front(text@) == front);
    let mut hi: usize = n;
    assert(front.subrange(0, (hi - lo) as int) =~= front);
    while hi > lo && text[hi - 1] == ' '
        invariant
            n == text.len(),
            lo <= hi <= n,
            front == text@.subrange(lo as int, n as int),
            strip_back(front) == strip_back(text@.subrange(lo as int, hi as int)),
        decreases hi - lo,
    {
        assert(text@.subrange(lo as int, hi as int).drop_last() =~= text@.subrange(
            lo as int,
            hi - 1,
        ));
        hi -= 1;
    }
    let mut r: Vec<char> = Vec::new();
    let mut j: usize = lo;
    while j < hi
        invariant
            n == text.len(),
            lo <= j <= hi <= n,
            r@ == text@.subrange(lo as int, j as int),
        decreases hi - j,
    {
        r.push(text[j]);
        assert(r@ =~= text@.subrange(lo as int, j + 1));
        j += 1;
    }
    r
}

fn split_at_spaces(text: &Vec<char>) -> (fields: Vec<Vec<char>>)
    ensures
        fields.len() >= 1,
        join_fields(fields.deep_view()) == text@,
        spaceless(fields.deep_view()),
{
    let mut fields: Vec<Vec<char>> = Vec::new();
    let mut current: Vec<char> = Vec::new();
    let ghost mut parts: Seq<Seq<char>> = seq![];
    let mut i: usize = 0;
    while i < text.len()
        invariant
            i <= text.len(),
            fields.len() == parts.len(),
            forall|k: int| 0 <= k < parts.len() ==> #[trigger] fields@[k]@ == parts[k],
            join_fields(parts.push(current@)) == text@.subrange(0, i as int),
            spaceless(parts.push(current@)),
        decreases text.len() - i,
    {
        let c = text[i];
        let ghost done = parts.push(current@);
        if c == ' ' {
            proof {
                parts = parts.push(current@);
            }
            fields.push(current);
            current = Vec::new();
            assert(parts.push(current@).drop_last() =~= done);
            assert(parts.push(current@) =~= done.push(seq![]));
            assert(spaceless(parts.push(current@))) by {
                assert forall|a: int, k: int|
                    0 <= a < parts.push(current@).len() && 0 <= k < parts.push(
                        current@,
                    )[a].len() implies #[trigger] parts.push(current@)[a][k] != ' ' by {
                    assert(parts.push(current@)[a] == done[a]);
                }
            }
        } else {
            current.push(c);
            assert(parts.push(current@).drop_last() =~= parts);
            assert(done.drop_last() =~= parts);
        }
        assert(join_fields(parts.push(current@)) =~= text@.subrange(0, i + 1));
        i += 1;
    }
    let ghost last = current@;
    fields.push(current);
    proof {
        parts = parts.push(last);
        assert(fields.deep_view() =~= parts) by {
            assert forall|k: int| 0 <= k < parts.len() implies #[trigger] fields.deep_view()[k]
                == parts[k] by {
                assert(fields@[k]@ =~= fields@[k].deep_view());
            }
        }
        assert(text@.subrange(0, text.len() as int) =~= text@);
    }
    fields
}

/// The fields of a position command: the characters that can make up numbers
/// are kept, spaces at both ends are dropped, and what is left is split at every
/// space (two neighbouring spaces give an empty field between them).
pub fn command_fields(text: &Vec<char>) -> (fields: Vec<Vec<char>>)
    ensures
        fields.len() >= 1,
        join_fields(fields.deep_view()) == trim_spaces(kept_chars(text@)),
        spaceless(fields.deep_view()),
{
    let kept = keep_command_chars(text);
    let trimmed = trim_command_spaces(&kept);
    split_at_spaces(&trimmed)
}

} // verus!
