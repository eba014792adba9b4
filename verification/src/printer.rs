//! The canonical pretty-printer. Its exact spellings are part of the
//! contract: the printed form is compared verbatim in golden tests.

use vstd::prelude::*;
use vstd::string::StringExecFns;

use crate::hir::{HIRExpression, HIRStatement, Immediate, ReferenceAccess, Variable};
use crate::model::Ty;
use crate::types::{lemma_fields_model, lemma_types_model, type_model, HIRType};

verus! {

/// The decimal digit character of a value below ten.
pub open spec fn digit_char(d: nat) -> char {
    if d == 0 {
        '0'
    } else if d == 1 {
        '1'
    } else if d == 2 {
        '2'
    } else if d == 3 {
        '3'
    } else if d == 4 {
        '4'
    } else if d == 5 {
        '5'
    } else if d == 6 {
        '6'
    } else if d == 7 {
        '7'
    } else if d == 8 {
        '8'
    } else {
        '9'
    }
}

/// The decimal rendering of a natural number, most significant digit first.
pub open spec fn dec_digits(n: nat) -> Seq<char>
    decreases n,
{
    if n < 10 {
        seq![digit_char(n)]
    } else {
        dec_digits(n / 10) + seq![digit_char(n % 10)]
    }
}

/// Appends one decimal digit.
fn push_digit(out: &mut String, d: usize)
    requires
        d < 10,
    ensures
        final(out)@ == old(out)@ + seq![digit_char(d as nat)],
{
    let s: &str = match d {
        0 => "0",
        1 => "1",
        2 => "2",
        3 => "3",
        4 => "4",
        5 => "5",
        6 => "6",
        7 => "7",
        8 => "8",
        _ => "9",
    };
    proof {
        reveal_strlit("0");
        reveal_strlit("1");
        reveal_strlit("2");
        reveal_strlit("3");
        reveal_strlit("4");
        reveal_strlit("5");
        reveal_strlit("6");
        reveal_strlit("7");
        reveal_strlit("8");
        reveal_strlit("9");
        assert(s@ =~= seq![digit_char(d as nat)]);
    }
    out.append(s);
}

/// Appends the decimal rendering of a number.
pub fn push_usize(out: &mut String, n: usize)
    ensures
        final(out)@ == old(out)@ + dec_digits(n as nat),
    decreases n,
{
    if n >= 10 {
        push_usize(out, n / 10);
    }
    push_digit(out, n % 10);
}

/// What the standard debug formatting of a string returns: the string
/// quoted and escaped.
pub uninterp spec fn debug_quoted(s: Seq<char>) -> Seq<char>;

/// Relies on the standard `Debug` formatting of `str`: the result depends
/// on the characters alone.
#[verifier::external_body]
fn quote_string(s: &str) -> (r: String)
    ensures
        r@ == debug_quoted(s@),
{
    format!("{:?}", s)
}

/// A tab inserted before every character that starts a line and is not
/// itself a newline.
pub open spec fn tab_indent_from(after_newline: bool, s: Seq<char>) -> Seq<char>
    decreases s.len(),
{
    if s.len() == 0 {
        Seq::empty()
    } else {
        (if after_newline && s[0] != '\n' {
            seq!['\t', s[0]]
        } else {
            seq![s[0]]
        }) + tab_indent_from(s[0] == '\n', s.drop_first())
    }
}

/// The indentation applied to a block: every line's first character gets a
/// tab before it.
pub open spec fn tab_indent(s: Seq<char>) -> Seq<char> {
    tab_indent_from(true, s)
}

/// Relies on `regex::Regex::replace_all` with the pattern `(^|\n)(.)` and
/// the replacement `$1\t$2`: a tab is inserted before each character that
/// stands at the start of the text or right after a newline and is not a
/// newline itself.
#[verifier::external_body]
fn indent_block(s: &str) -> (r: String)
    ensures
        r@ == tab_indent(s@),
{
    let pattern = regex::Regex::new("(^|\n)(.)").unwrap();
    pattern.replace_all(s, "$1\t$2").into_owned()
}

/// The rendering of a type: `Infer` as `$Infer`, `Unreachable` as `!`, a
/// generic parameter as `$T` and its index, a named type as its path with
/// optional `::<...>` arguments, a tuple in parentheses, an array in
/// brackets, a function as `(args)->result`, an anonymous struct as
/// `#{name: type, ...}`, and a union as its components joined by `|`.
pub open spec fn render_ty(t: Ty) -> Seq<char>
    decreases t,
{
    match t {
        Ty::Infer => "$Infer"@,
        Ty::Unreachable => "!"@,
        Ty::GenericsTypeArgument(i) => "$T"@ + dec_digits(i),
        Ty::Named { path, generics_arguments } => render_path(path) + (if generics_arguments.len()
            == 0 {
            Seq::<char>::empty()
        } else {
            "::<"@ + render_ty_list(generics_arguments) + ">"@
        }),
        Ty::Tuple(items) => "("@ + render_ty_list(items) + ")"@,
        Ty::Array(item) => "["@ + render_ty(*item) + "]"@,
        Ty::Function { arguments, result } => "("@ + render_ty_list(arguments) + ")->"@
            + render_ty(*result),
        Ty::AnonymousStruct(members) => "#{"@ + render_ty_fields(members) + "}"@,
        Ty::Or(items) => "("@ + render_ty_or(items) + ")"@,
    }
}

/// Path components joined by `::`.
pub open spec fn render_path(p: Seq<Seq<char>>) -> Seq<char>
    decreases p.len(),
{
    if p.len() == 0 {
        Seq::empty()
    } else if p.len() == 1 {
        p[0]
    } else {
        p[0] + "::"@ + render_path(p.drop_first())
    }
}

/// Types joined by `, `.
pub open spec fn render_ty_list(s: Seq<Ty>) -> Seq<char>
    decreases s,
{
    if s.len() == 0 {
        Seq::empty()
    } else if s.len() == 1 {
        render_ty(s[0])
    } else {
        render_ty(s[0]) + ", "@ + render_ty_list(s.drop_first())
    }
}

/// Types joined by ` | `.
pub open spec fn render_ty_or(s: Seq<Ty>) -> Seq<char>
    decreases s,
{
    if s.len() == 0 {
        Seq::empty()
    } else if s.len() == 1 {
        render_ty(s[0])
    } else {
        render_ty(s[0]) + " | "@ + render_ty_or(s.drop_first())
    }
}

/// Members as `name: type`, joined by `, `.
pub open spec fn render_ty_fields(m: Seq<(Seq<char>, Ty)>) -> Seq<char>
    decreases m,
{
    if m.len() == 0 {
        Seq::empty()
    } else if m.len() == 1 {
        m[0].0 + ": "@ + render_ty(m[0].1)
    } else {
        m[0].0 + ": "@ + render_ty(m[0].1) + ", "@ + render_ty_fields(m.drop_first())
    }
}

/// Appends the rendering of a type.
fn write_type(t: &HIRType, out: &mut String)
    ensures
        final(out)@ == old(out)@ + render_ty(t@),
    decreases *t, 0int,
{
    match t {
        HIRType::Infer => {
            out.append("$Infer");
        },
        HIRType::Unreachable => {
            out.append("!");
        },
        HIRType::GenericsTypeArgument(i) => {
            out.append("$T");
            push_usize(out, *i);
        },
        HIRType::Named { path, generics_arguments } => {
            write_path(path, out);
            if generics_arguments.len() > 0 {
                out.append("::<");
                write_type_list(generics_arguments, out);
                out.append(">");
            }
            proof {
                assert(final(out)@ == old(out)@ + render_ty(t@));
            }
        },
        HIRType::Tuple(items) => {
            out.append("(");
            write_type_list(items, out);
            out.append(")");
        },
        HIRType::Array(item) => {
            out.append("[");
            write_type(&**item, out);
            out.append("]");
        },
        HIRType::Function { arguments, result } => {
            out.append("(");
            write_type_list(arguments, out);
            out.append(")->");
            write_type(&**result, out);
        },
        HIRType::AnonymousStruct(members) => {
            out.append("#{");
            write_type_fields(members, out);
            out.append("}");
        },
        HIRType::Or(items) => {
            out.append("(");
            write_type_or(items, out);
            out.append(")");
        },
    }
}

/// Appends path components joined by `::`.
fn write_path(p: &Vec<String>, out: &mut String)
    ensures
        final(out)@ == old(out)@ + render_path(crate::types::path_model(p@)),
{
    let ghost pm = crate::types::path_model(p@);
    let mut i: usize = 0;
    while i < p.len()
        invariant
            0 <= i <= p.len(),
            pm == crate::types::path_model(p@),
            pm.len() == p.len(),
            i == 0 ==> out@ == old(out)@,
            i > 0 ==> out@ == old(out)@ + render_path(pm.take(i as int)),
        decreases p.len() - i,
    {
        if i > 0 {
            out.append("::");
        }
        out.append(p[i].as_str());
        i = i + 1;
        proof {
            lemma_render_path_take(pm, i as int);
        }
    }
    proof {
        if p.len() > 0 {
            assert(pm.take(p.len() as int) =~= pm);
        }
    }
}

/// One more component extends the joined path.
proof fn lemma_render_path_take(p: Seq<Seq<char>>, i: int)
    requires
        1 <= i <= p.len(),
    ensures
        render_path(p.take(i)) == if i == 1 {
            p[0]
        } else {
            render_path(p.take(i - 1)) + "::"@ + p[i - 1]
        },
    decreases i,
{
    if i == 1 {
        assert(p.take(1).len() == 1);
        assert(p.take(1)[0] == p[0]);
        assert(render_path(p.take(1)) == p.take(1)[0]);
    } else {
        lemma_render_path_take_general(p.take(i));
        assert(p.take(i).take(i - 1) =~= p.take(i - 1));
    }
}

/// Splitting the last component off a joined path.
proof fn lemma_render_path_take_general(p: Seq<Seq<char>>)
    requires
        p.len() >= 2,
    ensures
        render_path(p) == render_path(p.take(p.len() - 1)) + "::"@ + p[p.len() - 1],
    decreases p.len(),
{
    if p.len() == 2 {
        assert(p.drop_first().len() == 1);
        assert(p.drop_first()[0] == p[1]);
        assert(p.take(1).len() == 1);
        assert(p.take(1)[0] == p[0]);
        assert(render_path(p.drop_first()) =~= p[1]);
        assert(render_path(p) =~= p[0] + "::"@ + p[1]);
    } else {
        lemma_render_path_take_general(p.drop_first());
        assert(p.drop_first().take(p.drop_first().len() - 1) =~= p.take(p.len() - 1).drop_first());
        assert(p.drop_first()[p.drop_first().len() - 1] == p[p.len() - 1]);
        assert(p.take(p.len() - 1).len() >= 2);
        assert(p.take(p.len() - 1)[0] == p[0]);
        assert(render_path(p) =~= render_path(p.take(p.len() - 1)) + "::"@ + p[p.len() - 1]);
    }
}

/// Appends types joined by `, `.
fn write_type_list(v: &Vec<HIRType>, out: &mut String)
    ensures
        final(out)@ == old(out)@ + render_ty_list(crate::types::types_model(v@)),
    decreases v@, 1int,
{
    let ghost m = crate::types::types_model(v@);
    proof {
        lemma_types_model(v@);
    }
    let mut i: usize = 0;
    while i < v.len()
        invariant
            0 <= i <= v.len(),
            m == crate::types::types_model(v@),
            m.len() == v.len(),
            forall|j: int| 0 <= j < v.len() ==> #[trigger] m[j] == type_model(v@[j]),
            i == 0 ==> out@ == old(out)@,
            i > 0 ==> out@ == old(out)@ + render_ty_list(m.take(i as int)),
        decreases v.len() - i,
    {
        if i > 0 {
            out.append(", ");
        }
        write_type(&v[i], out);
        i = i + 1;
        proof {
            lemma_render_ty_list_take(m, i as int);
        }
    }
    proof {
        if v.len() > 0 {
            assert(m.take(v.len() as int) =~= m);
        }
    }
}

/// One more type extends the `, ` join.
proof fn lemma_render_ty_list_take(m: Seq<Ty>, i: int)
    requires
        1 <= i <= m.len(),
    ensures
        render_ty_list(m.take(i)) == if i == 1 {
            render_ty(m[0])
        } else {
            render_ty_list(m.take(i - 1)) + ", "@ + render_ty(m[i - 1])
        },
    decreases i,
{
    if i == 1 {
        assert(m.take(1).len() == 1);
        assert(m.take(1)[0] == m[0]);
    } else {
        lemma_render_ty_list_take_general(m.take(i));
        assert(m.take(i).take(i - 1) =~= m.take(i - 1));
    }
}

/// Splitting the last type off a `, ` join.
proof fn lemma_render_ty_list_take_general(m: Seq<Ty>)
    requires
        m.len() >= 2,
    ensures
        render_ty_list(m) == render_ty_list(m.take(m.len() - 1)) + ", "@ + render_ty(
            m[m.len() - 1],
        ),
    decreases m.len(),
{
    if m.len() == 2 {
        assert(m.drop_first().len() == 1);
        assert(m.drop_first()[0] == m[1]);
        assert(m.take(1).len() == 1);
        assert(m.take(1)[0] == m[0]);
        assert(render_ty_list(m.drop_first()) =~= render_ty(m[1]));
        assert(render_ty_list(m) =~= render_ty(m[0]) + ", "@ + render_ty(m[1]));
    } else {
        lemma_render_ty_list_take_general(m.drop_first());
        assert(m.drop_first().take(m.drop_first().len() - 1) =~= m.take(m.len() - 1).drop_first());
        assert(m.drop_first()[m.drop_first().len() - 1] == m[m.len() - 1]);
        assert(m.take(m.len() - 1).len() >= 2);
        assert(m.take(m.len() - 1)[0] == m[0]);
        assert(render_ty_list(m) =~= render_ty_list(m.take(m.len() - 1)) + ", "@ + render_ty(
            m[m.len() - 1],
        ));
    }
}

/// Appends types joined by ` | `.
fn write_type_or(v: &Vec<HIRType>, out: &mut String)
    ensures
        final(out)@ == old(out)@ + render_ty_or(crate::types::types_model(v@)),
    decreases v@, 1int,
{
    let ghost m = crate::types::types_model(v@);
    proof {
        lemma_types_model(v@);
    }
    let mut i: usize = 0;
    while i < v.len()
        invariant
            0 <= i <= v.len(),
            m == crate::types::types_model(v@),
            m.len() == v.len(),
            forall|j: int| 0 <= j < v.len() ==> #[trigger] m[j] == type_model(v@[j]),
            i == 0 ==> out@ == old(out)@,
            i > 0 ==> out@ == old(out)@ + render_ty_or(m.take(i as int)),
        decreases v.len() - i,
    {
        if i > 0 {
            out.append(" | ");
        }
        write_type(&v[i], out);
        i = i + 1;
        proof {
            lemma_render_ty_or_take(m, i as int);
        }
    }
    proof {
        if v.len() > 0 {
            assert(m.take(v.len() as int) =~= m);
        }
    }
}

/// One more type extends the ` | ` join.
proof fn lemma_render_ty_or_take(m: Seq<Ty>, i: int)
    requires
        1 <= i <= m.len(),
    ensures
        render_ty_or(m.take(i)) == if i == 1 {
            render_ty(m[0])
        } else {
            render_ty_or(m.take(i - 1)) + " | "@ + render_ty(m[i - 1])
        },
    decreases i,
{
    if i == 1 {
        assert(m.take(1).len() == 1);
        assert(m.take(1)[0] == m[0]);
    } else {
        lemma_render_ty_or_take_general(m.take(i));
        assert(m.take(i).take(i - 1) =~= m.take(i - 1));
    }
}

/// Splitting the last type off a ` | ` join.
proof fn lemma_render_ty_or_take_general(m: Seq<Ty>)
    requires
        m.len() >= 2,
    ensures
        render_ty_or(m) == render_ty_or(m.take(m.len() - 1)) + " | "@ + render_ty(m[m.len() - 1]),
    decreases m.len(),
{
    if m.len() == 2 {
        assert(m.drop_first().len() == 1);
        assert(m.drop_first()[0] == m[1]);
        assert(m.take(1).len() == 1);
        assert(m.take(1)[0] == m[0]);
        assert(render_ty_or(m.drop_first()) =~= render_ty(m[1]));
        assert(render_ty_or(m) =~= render_ty(m[0]) + " | "@ + render_ty(m[1]));
    } else {
        lemma_render_ty_or_take_general(m.drop_first());
        assert(m.drop_first().take(m.drop_first().len() - 1) =~= m.take(m.len() - 1).drop_first());
        assert(m.drop_first()[m.drop_first().len() - 1] == m[m.len() - 1]);
        assert(m.take(m.len() - 1).len() >= 2);
        assert(m.take(m.len() - 1)[0] == m[0]);
        assert(render_ty_or(m) =~= render_ty_or(m.take(m.len() - 1)) + " | "@ + render_ty(
            m[m.len() - 1],
        ));
    }
}

/// Appends members as `name: type` joined by `, `.
fn write_type_fields(v: &Vec<(String, HIRType)>, out: &mut String)
    ensures
        final(out)@ == old(out)@ + render_ty_fields(crate::types::fields_model(v@)),
    decreases v@, 1int,
{
    let ghost m = crate::types::fields_model(v@);
    proof {
        lemma_fields_model(v@);
    }
    let mut i: usize = 0;
    while i < v.len()
        invariant
            0 <= i <= v.len(),
            m == crate::types::fields_model(v@),
            m.len() == v.len(),
            forall|j: int|
                0 <= j < v.len() ==> #[trigger] m[j] == (v@[j].0@, type_model(v@[j].1)),
            i == 0 ==> out@ == old(out)@,
            i > 0 ==> out@ == old(out)@ + render_ty_fields(m.take(i as int)),
        decreases v.len() - i,
    {
        if i > 0 {
            out.append(", ");
        }
        out.append(v[i].0.as_str());
        out.append(": ");
        write_type(&v[i].1, out);
        i = i + 1;
        proof {
            lemma_render_ty_fields_take(m, i as int);
        }
    }
    proof {
        if v.len() > 0 {
            assert(m.take(v.len() as int) =~= m);
        }
    }
}

/// One more member extends the `, ` join of members.
proof fn lemma_render_ty_fields_take(m: Seq<(Seq<char>, Ty)>, i: int)
    requires
        1 <= i <= m.len(),
    ensures
        render_ty_fields(m.take(i)) == if i == 1 {
            m[0].0 + ": "@ + render_ty(m[0].1)
        } else {
            render_ty_fields(m.take(i - 1)) + ", "@ + (m[i - 1].0 + ": "@ + render_ty(m[i - 1].1))
        },
    decreases i,
{
    if i == 1 {
        assert(m.take(1).len() == 1);
        assert(m.take(1)[0] == m[0]);
    } else {
        lemma_render_ty_fields_take_general(m.take(i));
        assert(m.take(i).take(i - 1) =~= m.take(i - 1));
    }
}

/// Splitting the last member off the `, ` join of members.
proof fn lemma_render_ty_fields_take_general(m: Seq<(Seq<char>, Ty)>)
    requires
        m.len() >= 2,
    ensures
        render_ty_fields(m) == render_ty_fields(m.take(m.len() - 1)) + ", "@ + (m[m.len() - 1].0
            + ": "@ + render_ty(m[m.len() - 1].1)),
    decreases m.len(),
{
    if m.len() == 2 {
        assert(m.drop_first().len() == 1);
        assert(m.drop_first()[0] == m[1]);
        assert(m.take(1).len() == 1);
        assert(m.take(1)[0] == m[0]);
        assert(render_ty_fields(m.drop_first()) =~= m[1].0 + ": "@ + render_ty(m[1].1));
        assert(render_ty_fields(m) =~= (m[0].0 + ": "@ + render_ty(m[0].1)) + ", "@ + (m[1].0
            + ": "@ + render_ty(m[1].1)));
    } else {
        lemma_render_ty_fields_take_general(m.drop_first());
        assert(m.drop_first().take(m.drop_first().len() - 1) =~= m.take(m.len() - 1).drop_first());
        assert(m.drop_first()[m.drop_first().len() - 1] == m[m.len() - 1]);
        assert(m.take(m.len() - 1).len() >= 2);
        assert(m.take(m.len() - 1)[0] == m[0]);
        assert(render_ty_fields(m) =~= render_ty_fields(m.take(m.len() - 1)) + ", "@ + (m[m.len()
            - 1].0 + ": "@ + render_ty(m[m.len() - 1].1)));
    }
}

impl HIRType {
    /// The canonical textual form of this type.
    pub fn to_string(&self) -> (r: String)
        ensures
            r@ == render_ty(self@),
    {
        let mut out = String::new();
        write_type(self, &mut out);
        out
    }
}

/// The English ordinal suffix used for tuple indices: `st`, `nd`, `rd`,
/// `th`, with `th` for the teens.
pub open spec fn ordinal_suffix(n: nat) -> Seq<char> {
    if n / 10 == 1 {
        "th"@
    } else if n % 10 == 1 {
        "st"@
    } else if n % 10 == 2 {
        "nd"@
    } else if n % 10 == 3 {
        "rd"@
    } else {
        "th"@
    }
}

/// The ordinal suffix of an index.
pub fn get_ordinal(index: usize) -> (r: &'static str)
    ensures
        r@ == ordinal_suffix(index as nat),
{
    proof {
        reveal_strlit("th");
        reveal_strlit("st");
        reveal_strlit("nd");
        reveal_strlit("rd");
    }
    if index / 10 == 1 {
        "th"
    } else if index % 10 == 1 {
        "st"
    } else if index % 10 == 2 {
        "nd"
    } else if index % 10 == 3 {
        "rd"
    } else {
        "th"
    }
}

/// The hexadecimal digit character of a value below sixteen.
pub open spec fn hex_digit(d: nat) -> char {
    if d < 10 {
        digit_char(d)
    } else if d == 10 {
        'a'
    } else if d == 11 {
        'b'
    } else if d == 12 {
        'c'
    } else if d == 13 {
        'd'
    } else if d == 14 {
        'e'
    } else {
        'f'
    }
}

/// Appends one hexadecimal digit.
fn push_hex_digit(out: &mut String, d: u8)
    requires
        d < 16,
    ensures
        final(out)@ == old(out)@ + seq![hex_digit(d as nat)],
{
    if d < 10 {
        push_digit(out, d as usize);
    } else {
        let s: &str = match d {
            10 => "a",
            11 => "b",
            12 => "c",
            13 => "d",
            14 => "e",
            _ => "f",
        };
        proof {
            reveal_strlit("a");
            reveal_strlit("b");
            reveal_strlit("c");
            reveal_strlit("d");
            reveal_strlit("e");
            reveal_strlit("f");
            assert(s@ =~= seq![hex_digit(d as nat)]);
        }
        out.append(s);
    }
}

/// The hyphenated lowercase hexadecimal form of an item identifier, from
/// byte `i` on: two digits per byte, with hyphens before bytes four, six,
/// eight and ten.
pub open spec fn render_id_from(b: Seq<u8>, i: int) -> Seq<char>
    decreases 16 - i,
{
    if i < 0 || i >= 16 {
        Seq::empty()
    } else {
        (if i == 4 || i == 6 || i == 8 || i == 10 {
            seq!['-']
        } else {
            Seq::<char>::empty()
        }) + seq![hex_digit(b[i] as nat / 16), hex_digit(b[i] as nat % 16)] + render_id_from(
            b,
            i + 1,
        )
    }
}

/// The rendering of an item identifier.
pub open spec fn render_item_id(b: Seq<u8>) -> Seq<char> {
    render_id_from(b, 0)
}

impl crate::hir::ItemId {
    /// The hyphenated lowercase hexadecimal form of this identifier.
    pub fn to_string(&self) -> (r: String)
        ensures
            r@ == render_item_id(self.bytes@),
    {
        let mut out = String::new();
        let mut i: usize = 0;
        proof {
            reveal_strlit("-");
        }
        while i < 16
            invariant
                0 <= i <= 16,
                render_item_id(self.bytes@) == out@ + render_id_from(self.bytes@, i as int),
            decreases 16 - i,
        {
            if i == 4 || i == 6 || i == 8 || i == 10 {
                out.append("-");
            }
            let b = self.bytes[i];
            push_hex_digit(&mut out, b / 16);
            push_hex_digit(&mut out, b % 16);
            i = i + 1;
            proof {
                reveal_strlit("-");
                assert("-"@ =~= seq!['-']);
                assert(out@ + render_id_from(self.bytes@, i as int) =~= render_item_id(
                    self.bytes@,
                ));
            }
        }
        proof {
            assert(render_id_from(self.bytes@, 16) =~= Seq::<char>::empty());
            assert(out@ =~= out@ + Seq::<char>::empty());
        }
        out
    }
}

impl crate::types::HIRTypeConvertError {
    /// The message of the error: the duplicated member name, quoted.
    pub fn to_string(&self) -> (r: String)
        ensures
            ({
                let crate::types::HIRTypeConvertError::DuplicatedMember(n) = *self;
                r@ == "member "@ + debug_quoted(n@) + " is duplicated."@
            }),
    {
        match self {
            crate::types::HIRTypeConvertError::DuplicatedMember(name) => {
                let mut out = String::new();
                out.append("member ");
                let quoted = quote_string(name.as_str());
                out.append(quoted.as_str());
                out.append(" is duplicated.");
                out
            },
        }
    }
}

/// The formatting capability of a reference payload: what a named variable
/// carrying it prints as.
pub trait ReferenceRender {
    /// The rendered form.
    spec fn spec_rendered(&self) -> Seq<char>;

    /// Renders the payload.
    fn rendered(&self) -> (r: String)
        ensures
            r@ == self.spec_rendered(),
    ;
}

/// The rendering of a variable: a named variable prints its payload, the
/// unnamed binding `$id` prints its number.
pub open spec fn render_var<R: ReferenceRender>(v: Variable<R>) -> Seq<char> {
    match v {
        Variable::Named(_, _, r) => r.spec_rendered(),
        Variable::Unnamed(id) => "$"@ + dec_digits(id as nat),
    }
}

/// Appends the rendering of a variable.
fn write_var<R: ReferenceRender>(v: &Variable<R>, out: &mut String)
    ensures
        final(out)@ == old(out)@ + render_var(*v),
{
    match v {
        Variable::Named(_, _, r) => {
            let s = r.rendered();
            out.append(s.as_str());
        },
        Variable::Unnamed(id) => {
            proof {
                reveal_strlit("$");
            }
            out.append("$");
            push_usize(out, *id);
        },
    }
}

/// Variables joined by `, `.
pub open spec fn render_args<R: ReferenceRender>(s: Seq<Variable<R>>) -> Seq<char>
    decreases s.len(),
{
    if s.len() == 0 {
        Seq::empty()
    } else if s.len() == 1 {
        render_var(s[0])
    } else {
        render_args(s.drop_last()) + ", "@ + render_var(s.last())
    }
}

/// Appends variables joined by `, `.
fn write_args<R: ReferenceRender>(v: &Vec<Variable<R>>, out: &mut String)
    ensures
        final(out)@ == old(out)@ + render_args(v@),
{
    let mut i: usize = 0;
    while i < v.len()
        invariant
            0 <= i <= v.len(),
            out@ == old(out)@ + render_args(v@.take(i as int)),
        decreases v.len() - i,
    {
        if i > 0 {
            out.append(", ");
        }
        write_var(&v[i], out);
        i = i + 1;
        proof {
            assert(v@.take(i as int).drop_last() =~= v@.take(i as int - 1));
            assert(v@.take(i as int).last() == v@[i as int - 1]);
        }
    }
    proof {
        assert(v@.take(v.len() as int) =~= v@);
    }
}

/// Constructor members as `name: variable`, joined by `, `.
pub open spec fn render_ctor_fields<R: ReferenceRender>(s: Seq<(String, Variable<R>)>) -> Seq<
    char,
>
    decreases s.len(),
{
    if s.len() == 0 {
        Seq::empty()
    } else if s.len() == 1 {
        s[0].0@ + ": "@ + render_var(s[0].1)
    } else {
        render_ctor_fields(s.drop_last()) + ", "@ + (s.last().0@ + ": "@ + render_var(s.last().1))
    }
}

/// Appends constructor members joined by `, `.
fn write_ctor_fields<R: ReferenceRender>(v: &Vec<(String, Variable<R>)>, out: &mut String)
    ensures
        final(out)@ == old(out)@ + render_ctor_fields(v@),
{
    let mut i: usize = 0;
    while i < v.len()
        invariant
            0 <= i <= v.len(),
            out@ == old(out)@ + render_ctor_fields(v@.take(i as int)),
        decreases v.len() - i,
    {
        if i > 0 {
            out.append(", ");
        }
        out.append(v[i].0.as_str());
        out.append(": ");
        write_var(&v[i].1, out);
        i = i + 1;
        proof {
            assert(v@.take(i as int).drop_last() =~= v@.take(i as int - 1));
            assert(v@.take(i as int).last() == v@[i as int - 1]);
        }
    }
    proof {
        assert(v@.take(v.len() as int) =~= v@);
    }
}

/// The rendering of an immediate: the raw digit form of a number, the
/// debug-quoted form of a string.
pub open spec fn render_immediate(im: Immediate) -> Seq<char> {
    match im {
        Immediate::Number(s) => s@,
        Immediate::String(s) => debug_quoted(s@),
    }
}

/// The rendering of an expression.
pub open spec fn render_expr<R: ReferenceRender>(e: HIRExpression<R>) -> Seq<char>
    decreases e,
{
    match e {
        HIRExpression::Immediate(im) => render_immediate(im),
        HIRExpression::CallFunction { function, arguments } => render_var(function) + "("@
            + render_args(arguments@) + ")"@,
        HIRExpression::AccessVariable(v) => render_var(v),
        HIRExpression::AccessMember { variable, member } => render_var(variable) + "."@ + member@,
        HIRExpression::AccessTupleItem { variable, index } => render_var(variable) + "."@
            + dec_digits(index as nat) + ordinal_suffix(index as nat),
        HIRExpression::If { condition, then, other } => "if "@ + render_var(condition) + " {\n"@
            + tab_indent(render_stmts_nl(then.0@) + render_var(then.1)) + "\n}"@ + " else {\n"@
            + tab_indent(render_stmts_nl(other.0@) + render_var(other.1)) + "\n}"@,
        HIRExpression::IfLet { condition_binding, pattern_type, condition, then, other } => "if let $"@
            + dec_digits(condition_binding as nat) + ": "@ + render_ty(pattern_type@) + " = "@
            + render_var(condition) + " {\n"@ + tab_indent(
            render_stmts_nl(then.0@) + render_var(then.1),
        ) + "\n}"@ + " else {\n"@ + tab_indent(render_stmts_nl(other.0@) + render_var(other.1))
            + "\n}"@,
        HIRExpression::Loop(body) => "loop {\n"@ + tab_indent(render_stmts_nl(body@)) + "}"@,
        HIRExpression::Assign { variable, value } => (match variable {
            ReferenceAccess::Variable(v) => render_var(v),
            ReferenceAccess::TupleItem(v, i) => render_var(v) + "."@ + dec_digits(i as nat)
                + ordinal_suffix(i as nat),
            ReferenceAccess::Member(v, m) => render_var(v) + "."@ + m@,
        }) + " = "@ + render_var(value),
        HIRExpression::ConstructStruct(members) => "#{"@ + render_ctor_fields(members@) + "}"@,
        HIRExpression::ConstructTuple(items) => "("@ + render_args(items@) + ")"@,
        HIRExpression::ConstructArray(items) => "["@ + render_args(items@) + "]"@,
    }
}

/// The rendering of a statement.
pub open spec fn render_stmt<R: ReferenceRender>(s: HIRStatement<R>) -> Seq<char>
    decreases s,
{
    match s {
        HIRStatement::Binding { variable_id, variable_type, expression } => "let $"@ + dec_digits(
            variable_id as nat,
        ) + ": "@ + render_ty(variable_type@) + " = "@ + render_expr(expression) + ";"@,
        HIRStatement::Unreachable => "unreachable"@,
        HIRStatement::Return(v) => "return "@ + render_var(v) + ";"@,
        HIRStatement::Continue(label) => match label {
            Some(l) => "continue "@ + l@ + ";"@,
            None => "continue;"@,
        },
        HIRStatement::Break(label) => match label {
            Some(l) => "break "@ + l@ + ";"@,
            None => "break;"@,
        },
    }
}

/// Statements each followed by a newline.
pub open spec fn render_stmts_nl<R: ReferenceRender>(s: Seq<HIRStatement<R>>) -> Seq<char>
    decreases s,
{
    if s.len() == 0 {
        Seq::empty()
    } else {
        render_stmts_nl(s.drop_last()) + render_stmt(s.last()) + "\n"@
    }
}

/// Statements joined by newlines, with no trailing newline.
pub open spec fn render_stmts_join<R: ReferenceRender>(s: Seq<HIRStatement<R>>) -> Seq<char>
    decreases s.len(),
{
    if s.len() == 0 {
        Seq::empty()
    } else if s.len() == 1 {
        render_stmt(s[0])
    } else {
        render_stmts_join(s.drop_last()) + "\n"@ + render_stmt(s.last())
    }
}

/// Appends the rendering of an expression.
#[verifier::rlimit(100)]
fn write_expr<R: ReferenceRender>(e: &HIRExpression<R>, out: &mut String)
    ensures
        final(out)@ == old(out)@ + render_expr(*e),
    decreases *e,
{
    match e {
        HIRExpression::Immediate(im) => match im {
            Immediate::Number(s) => {
                out.append(s.as_str());
            },
            Immediate::String(s) => {
                let q = quote_string(s.as_str());
                out.append(q.as_str());
            },
        },
        HIRExpression::CallFunction { function, arguments } => {
            write_var(function, out);
            out.append("(");
            write_args(arguments, out);
            out.append(")");
        },
        HIRExpression::AccessVariable(v) => {
            write_var(v, out);
        },
        HIRExpression::AccessMember { variable, member } => {
            write_var(variable, out);
            out.append(".");
            out.append(member.as_str());
        },
        HIRExpression::AccessTupleItem { variable, index } => {
            write_var(variable, out);
            out.append(".");
            push_usize(out, *index);
            out.append(get_ordinal(*index));
        },
        HIRExpression::If { condition, then, other } => {
            out.append("if ");
            write_var(condition, out);
            out.append(" {\n");
            let mut inner = String::new();
            write_stmts_nl(&then.0, &mut inner);
            write_var(&then.1, &mut inner);
            let indented = indent_block(inner.as_str());
            out.append(indented.as_str());
            out.append("\n}");
            out.append(" else {\n");
            let mut inner2 = String::new();
            write_stmts_nl(&other.0, &mut inner2);
            write_var(&other.1, &mut inner2);
            let indented2 = indent_block(inner2.as_str());
            out.append(indented2.as_str());
            out.append("\n}");
        },
        HIRExpression::IfLet { condition_binding, pattern_type, condition, then, other } => {
            out.append("if let $");
            push_usize(out, *condition_binding);
            out.append(": ");
            write_type(pattern_type, out);
            out.append(" = ");
            write_var(condition, out);
            out.append(" {\n");
            let mut inner = String::new();
            write_stmts_nl(&then.0, &mut inner);
            write_var(&then.1, &mut inner);
            let indented = indent_block(inner.as_str());
            out.append(indented.as_str());
            out.append("\n}");
            out.append(" else {\n");
            let mut inner2 = String::new();
            write_stmts_nl(&other.0, &mut inner2);
            write_var(&other.1, &mut inner2);
            let indented2 = indent_block(inner2.as_str());
            out.append(indented2.as_str());
            out.append("\n}");
        },
        HIRExpression::Loop(body) => {
            out.append("loop {\n");
            let mut inner = String::new();
            write_stmts_nl(body, &mut inner);
            let indented = indent_block(inner.as_str());
            out.append(indented.as_str());
            out.append("}");
        },
        HIRExpression::Assign { variable, value } => {
            match variable {
                ReferenceAccess::Variable(v) => {
                    write_var(v, out);
                },
                ReferenceAccess::TupleItem(v, i) => {
                    write_var(v, out);
                    out.append(".");
                    push_usize(out, *i);
                    out.append(get_ordinal(*i));
                },
                ReferenceAccess::Member(v, m) => {
                    write_var(v, out);
                    out.append(".");
                    out.append(m.as_str());
                },
            }
            out.append(" = ");
            write_var(value, out);
        },
        HIRExpression::ConstructStruct(members) => {
            out.append("#{");
            write_ctor_fields(members, out);
            out.append("}");
        },
        HIRExpression::ConstructTuple(items) => {
            out.append("(");
            write_args(items, out);
            out.append(")");
        },
        HIRExpression::ConstructArray(items) => {
            out.append("[");
            write_args(items, out);
            out.append("]");
        },
    }
}

/// Appends the rendering of a statement.
fn write_stmt<R: ReferenceRender>(s: &HIRStatement<R>, out: &mut String)
    ensures
        final(out)@ == old(out)@ + render_stmt(*s),
    decreases *s,
{
    match s {
        HIRStatement::Binding { variable_id, variable_type, expression } => {
            out.append("let $");
            push_usize(out, *variable_id);
            out.append(": ");
            write_type(variable_type, out);
            out.append(" = ");
            write_expr(expression, out);
            out.append(";");
        },
        HIRStatement::Unreachable => {
            out.append("unreachable");
        },
        HIRStatement::Return(v) => {
            out.append("return ");
            write_var(v, out);
            out.append(";");
        },
        HIRStatement::Continue(label) => match label {
            Some(l) => {
                out.append("continue ");
                out.append(l.as_str());
                out.append(";");
            },
            None => {
                out.append("continue;");
            },
        },
        HIRStatement::Break(label) => match label {
            Some(l) => {
                out.append("break ");
                out.append(l.as_str());
                out.append(";");
            },
            None => {
                out.append("break;");
            },
        },
    }
}

/// Appends statements, each followed by a newline.
fn write_stmts_nl<R: ReferenceRender>(v: &Vec<HIRStatement<R>>, out: &mut String)
    ensures
        final(out)@ == old(out)@ + render_stmts_nl(v@),
    decreases v@,
{
    let mut i: usize = 0;
    proof {
        assert(v@.take(0) =~= Seq::<HIRStatement<R>>::empty());
    }
    while i < v.len()
        invariant
            0 <= i <= v.len(),
            out@ == old(out)@ + render_stmts_nl(v@.take(i as int)),
        decreases v.len() - i,
    {
        write_stmt(&v[i], out);
        out.append("\n");
        i = i + 1;
        proof {
            assert(v@.take(i as int).drop_last() =~= v@.take(i as int - 1));
            assert(v@.take(i as int).last() == v@[i as int - 1]);
        }
    }
    proof {
        assert(v@.take(v.len() as int) =~= v@);
    }
}

/// The canonical textual form of a statement sequence: one statement per
/// line.
pub fn statements_to_string<R: ReferenceRender>(statements: &[HIRStatement<R>]) -> (r: String)
    ensures
        r@ == render_stmts_join(statements@),
{
    let mut out = String::new();
    let mut i: usize = 0;
    while i < statements.len()
        invariant
            0 <= i <= statements@.len(),
            out@ == render_stmts_join(statements@.take(i as int)),
        decreases statements@.len() - i,
    {
        if i > 0 {
            out.append("\n");
        }
        write_stmt(&statements[i], &mut out);
        i = i + 1;
        proof {
            assert(statements@.take(i as int).drop_last() =~= statements@.take(i as int - 1));
            assert(statements@.take(i as int).last() == statements@[i as int - 1]);
        }
    }
    proof {
        assert(statements@.take(statements@.len() as int) =~= statements@);
    }
    out
}

impl<R: ReferenceRender> Variable<R> {
    /// The canonical textual form of this variable.
    pub fn to_string(&self) -> (r: String)
        ensures
            r@ == render_var(*self),
    {
        let mut out = String::new();
        write_var(self, &mut out);
        out
    }
}

impl<R: ReferenceRender> HIRExpression<R> {
    /// The canonical textual form of this expression.
    pub fn to_string(&self) -> (r: String)
        ensures
            r@ == render_expr(*self),
    {
        let mut out = String::new();
        write_expr(self, &mut out);
        out
    }
}

impl<R: ReferenceRender> HIRStatement<R> {
    /// The canonical textual form of this statement.
    pub fn to_string(&self) -> (r: String)
        ensures
            r@ == render_stmt(*self),
    {
        let mut out = String::new();
        write_stmt(self, &mut out);
        out
    }
}

/// Paths of a candidate set joined by `, `, each path joined by `::`.
pub open spec fn render_search_paths(s: Seq<Vec<String>>) -> Seq<char>
    decreases s.len(),
{
    if s.len() == 0 {
        Seq::empty()
    } else if s.len() == 1 {
        render_path(crate::types::path_model(s[0]@))
    } else {
        render_search_paths(s.drop_last()) + ", "@ + render_path(
            crate::types::path_model(s.last()@),
        )
    }
}

impl ReferenceRender for crate::hir::SearchPaths {
    /// A single candidate path prints as the path itself; several print as
    /// `$either(path, ...)`.
    open spec fn spec_rendered(&self) -> Seq<char> {
        if self.0@.len() == 1 {
            render_path(crate::types::path_model(self.0@[0]@))
        } else {
            "$either("@ + render_search_paths(self.0@) + ")"@
        }
    }

    fn rendered(&self) -> (r: String) {
        if self.0.len() == 1 {
            let mut out = String::new();
            write_path(&self.0[0], &mut out);
            out
        } else {
            let mut out = String::new();
            out.append("$either(");
            let mut i: usize = 0;
            while i < self.0.len()
                invariant
                    0 <= i <= self.0@.len(),
                    out@ == "$either("@ + render_search_paths(self.0@.take(i as int)),
                decreases self.0@.len() - i,
            {
                if i > 0 {
                    out.append(", ");
                }
                write_path(&self.0[i], &mut out);
                i = i + 1;
                proof {
                    assert(self.0@.take(i as int).drop_last() =~= self.0@.take(i as int - 1));
                    assert(self.0@.take(i as int).last() == self.0@[i as int - 1]);
                }
            }
            out.append(")");
            proof {
                assert(self.0@.take(self.0@.len() as int) =~= self.0@);
            }
            out
        }
    }
}

/// Candidates of a resolved set as `id: type`, joined by `, `.
pub open spec fn render_candidates(s: Seq<(crate::hir::ItemId, HIRType)>) -> Seq<char>
    decreases s.len(),
{
    if s.len() == 0 {
        Seq::empty()
    } else if s.len() == 1 {
        render_item_id(s[0].0.bytes@) + ": "@ + render_ty(type_model(s[0].1))
    } else {
        render_candidates(s.drop_last()) + ", "@ + (render_item_id(s.last().0.bytes@) + ": "@
            + render_ty(type_model(s.last().1)))
    }
}

impl ReferenceRender for crate::hir::ResolvedItems {
    /// A single candidate prints as `id: type`; several print as
    /// `$either(id: type, ...)`.
    open spec fn spec_rendered(&self) -> Seq<char> {
        if self.0@.len() == 1 {
            render_candidates(self.0@)
        } else {
            "$either("@ + render_candidates(self.0@) + ")"@
        }
    }

    fn rendered(&self) -> (r: String) {
        let mut out = String::new();
        if self.0.len() != 1 {
            out.append("$either(");
        }
        let ghost prefix = out@;
        let mut i: usize = 0;
        while i < self.0.len()
            invariant
                0 <= i <= self.0@.len(),
                out@ == prefix + render_candidates(self.0@.take(i as int)),
            decreases self.0@.len() - i,
        {
            if i > 0 {
                out.append(", ");
            }
            let id_text = self.0[i].0.to_string();
            out.append(id_text.as_str());
            out.append(": ");
            write_type(&self.0[i].1, &mut out);
            i = i + 1;
            proof {
                assert(self.0@.take(i as int).drop_last() =~= self.0@.take(i as int - 1));
                assert(self.0@.take(i as int).last() == self.0@[i as int - 1]);
            }
        }
        if self.0.len() != 1 {
            out.append(")");
        }
        proof {
            assert(self.0@.take(self.0@.len() as int) =~= self.0@);
        }
        out
    }
}

impl ReferenceRender for (crate::hir::ItemId, HIRType) {
    /// A fully resolved reference prints as `id: type`.
    open spec fn spec_rendered(&self) -> Seq<char> {
        render_item_id(self.0.bytes@) + ": "@ + render_ty(type_model(self.1))
    }

    fn rendered(&self) -> (r: String) {
        let mut out = String::new();
        let id_text = self.0.to_string();
        out.append(id_text.as_str());
        out.append(": ");
        write_type(&self.1, &mut out);
        out
    }
}

} // verus!
