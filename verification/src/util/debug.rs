//! Values in writing.

use vstd::prelude::*;
use vstd::string::{StrSliceExecFns, StringExecFns};

verus! {

/// A text whose lines, but for the first, are moved to the right.
pub open spec fn indented(text: Seq<char>) -> Seq<char>
    decreases text.len(),
{
    if text.len() == 0 {
        text
    } else if text.last() == '\n' {
        indented(text.drop_last()) + "\n    "@
    } else {
        indented(text.drop_last()).push(text.last())
    }
}

/// A name and what belongs to it, on one line.
pub open spec fn tuple_text(name: Seq<char>, field: Seq<char>) -> Seq<char> {
    name + "("@ + field + ")"@
}

/// A name and what belongs to it, on a line of its own.
pub open spec fn pretty_text(name: Seq<char>, field: Seq<char>) -> Seq<char> {
    name + "(\n    "@ + indented(field) + ",\n)"@
}

/// Move the lines of a text, but for the first, to the right.
pub fn indent(text: &str) -> (r: String)
    ensures
        r@ == indented(text@),
{
    let len: usize = text.unicode_len();
    let mut out: String = "".to_owned();
    proof {
        reveal_strlit("");
        assert(out@ =~= indented(text@.take(0)));
    }
    let mut i: usize = 0;
    while i < len
        invariant
            i <= len,
            len == text@.len(),
            out@ == indented(text@.take(i as int)),
        decreases len - i,
    {
        let ghost next = text@.take(i + 1);
        assert(next.drop_last() =~= text@.take(i as int));
        assert(next.last() == text@[i as int]);
        if text.get_char(i) == '\n' {
            out.append("\n    ");
        } else {
            out.append(text.substring_char(i, i + 1));
            assert(out@ =~= indented(next));
        }
        i = i + 1;
    }
    assert(text@.take(len as int) =~= text@);
    out
}

/// Write a name and what belongs to it on one line.
pub fn tuple(name: &str, field: &str) -> (r: String)
    ensures
        r@ == tuple_text(name@, field@),
{
    let mut out: String = name.to_owned();
    out.append("(");
    out.append(field);
    out.append(")");
    out
}

/// Write a name, and what belongs to it on a line of its own.
pub fn pretty_tuple(name: &str, field: &str) -> (r: String)
    ensures
        r@ == pretty_text(name@, field@),
{
    let mut out: String = name.to_owned();
    out.append("(\n    ");
    out.append(indent(field).as_str());
    out.append(",\n)");
    out
}

/// A name and a field, given how the field is written.
pub open spec fn struct_text(
    name: Seq<char>,
    field: Seq<char>,
    alternate: bool,
    value: Seq<char>,
) -> Seq<char> {
    if alternate {
        name + " {\n    "@ + field + ": "@ + indented(value) + ",\n}"@
    } else {
        name + " { "@ + field + ": "@ + value + " }"@
    }
}

/// Write a name and a field, given how the field is written.
pub fn structure(name: &str, field: &str, alternate: bool, value: &str) -> (r: String)
    ensures
        r@ == struct_text(name@, field@, alternate, value@),
{
    let mut out: String = name.to_owned();
    if alternate {
        out.append(" {\n    ");
        out.append(field);
        out.append(": ");
        out.append(indent(value).as_str());
        out.append(",\n}");
    } else {
        out.append(" { ");
        out.append(field);
        out.append(": ");
        out.append(value);
        out.append(" }");
    }
    out
}

/// An optional value, given how the value is written.
pub open spec fn option_text(some: bool, alternate: bool, inner: Seq<char>) -> Seq<char> {
    if !some {
        "None"@
    } else if alternate {
        pretty_text("Some"@, inner)
    } else {
        tuple_text("Some"@, inner)
    }
}

/// Write an optional value, given how the value is written.
pub fn option(some: bool, alternate: bool, inner: &str) -> (r: String)
    ensures
        r@ == option_text(some, alternate, inner@),
{
    if !some {
        "None".to_owned()
    } else if alternate {
        pretty_tuple("Some", inner)
    } else {
        tuple("Some", inner)
    }
}

/// A text is moved to the right line by line: what has no line break stays as it is, and
/// each line break is followed by the same margin.
pub proof fn law_moved_line_by_line(line: Seq<char>, rest: Seq<char>)
    requires
        !line.contains('\n'),
    ensures
        indented(line) == line,
        indented(line + "\n"@ + rest) == line + "\n    "@ + indented(rest),
    decreases line.len() + rest.len(),
{
    reveal_strlit("\n");
    if rest.len() == 0 {
        if line.len() > 0 {
            assert(!line.drop_last().contains('\n')) by {
                if line.drop_last().contains('\n') {
                    let i = choose|i: int|
                        0 <= i < line.drop_last().len() && line.drop_last()[i] == '\n';
                    assert(line[i] == '\n');
                }
            }
            law_moved_line_by_line(line.drop_last(), rest);
            assert(line[line.len() - 1] == line.last());
            assert(line.drop_last().push(line.last()) =~= line);
        }
        let whole = line + "\n"@ + rest;
        assert(whole.drop_last() =~= line);
        assert(whole.last() == '\n');
        assert(line + "\n    "@ + indented(rest) =~= line + "\n    "@);
    } else {
        law_moved_line_by_line(line, rest.drop_last());
        let whole = line + "\n"@ + rest;
        assert(whole.drop_last() =~= line + "\n"@ + rest.drop_last());
        assert(whole.last() == rest.last());
        assert(indented(whole) =~= line + "\n    "@ + indented(rest));
    }
}

} // verus!
