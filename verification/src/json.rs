//! The serializer: renders a verbose forest or a compact collection as JSON
//! text, minified or pretty-printed with two-space indentation.

use vstd::prelude::*;

use crate::layout::CompactCollection;
use crate::layout::CompactEntry;
use crate::layout::CompactView;
use crate::layout::NeighbourhoodPoints;
use crate::layout::VerboseEntry;
use crate::layout::VerboseView;

verus! {

/// `n` space characters.
pub open spec fn spaces(n: nat) -> Seq<char>
    decreases n,
{
    if n == 0 {
        Seq::empty()
    } else {
        spaces((n - 1) as nat).push(' ')
    }
}

/// A line break followed by the indentation of `level`.
pub open spec fn nl_indent(level: nat) -> Seq<char> {
    seq!['\n'] + spaces(2 * level)
}

/// The hexadecimal digit character for `d`.
pub open spec fn hex_digit(d: nat) -> char {
    if d == 0 { '0' }
    else if d == 1 { '1' }
    else if d == 2 { '2' }
    else if d == 3 { '3' }
    else if d == 4 { '4' }
    else if d == 5 { '5' }
    else if d == 6 { '6' }
    else if d == 7 { '7' }
    else if d == 8 { '8' }
    else if d == 9 { '9' }
    else if d == 10 { 'a' }
    else if d == 11 { 'b' }
    else if d == 12 { 'c' }
    else if d == 13 { 'd' }
    else if d == 14 { 'e' }
    else { 'f' }
}

/// How one character appears inside a JSON string literal.
pub open spec fn esc_char(c: char) -> Seq<char> {
    if c == '"' { seq!['\\', '"'] }
    else if c == '\\' { seq!['\\', '\\'] }
    else if c as u32 == 8 { seq!['\\', 'b'] }
    else if c as u32 == 9 { seq!['\\', 't'] }
    else if c as u32 == 10 { seq!['\\', 'n'] }
    else if c as u32 == 12 { seq!['\\', 'f'] }
    else if c as u32 == 13 { seq!['\\', 'r'] }
    else if (c as u32) < 32 {
        seq!['\\', 'u', '0', '0', hex_digit(((c as u32) / 16) as nat), hex_digit(((c as u32) % 16) as nat)]
    } else {
        seq![c]
    }
}

/// A character sequence with every character escaped for JSON.
pub open spec fn escaped(s: Seq<char>) -> Seq<char>
    decreases s.len(),
{
    if s.len() == 0 {
        Seq::empty()
    } else {
        escaped(s.drop_last()) + esc_char(s.last())
    }
}

/// A JSON string literal.
pub open spec fn quoted(s: Seq<char>) -> Seq<char> {
    seq!['"'] + escaped(s) + seq!['"']
}

/// The decimal digit character for `d`.
pub open spec fn digit_char(d: nat) -> char {
    if d == 0 { '0' }
    else if d == 1 { '1' }
    else if d == 2 { '2' }
    else if d == 3 { '3' }
    else if d == 4 { '4' }
    else if d == 5 { '5' }
    else if d == 6 { '6' }
    else if d == 7 { '7' }
    else if d == 8 { '8' }
    else { '9' }
}

/// The decimal digits of `n`, most significant first.
pub open spec fn dec_nat(n: nat) -> Seq<char>
    decreases n,
{
    if n < 10 {
        seq![digit_char(n)]
    } else {
        dec_nat(n / 10).push(digit_char(n % 10))
    }
}

/// The decimal rendering of `n`, with a leading minus sign when negative.
pub open spec fn dec_int(n: int) -> Seq<char> {
    if n < 0 {
        seq!['-'] + dec_nat((-n) as nat)
    } else {
        dec_nat(n as nat)
    }
}

/// The key/value separator.
pub open spec fn colon(pretty: bool) -> Seq<char> {
    if pretty {
        seq![':', ' ']
    } else {
        seq![':']
    }
}

/// The separator between two collection items.
pub open spec fn item_sep(pretty: bool, level: nat) -> Seq<char> {
    if pretty {
        seq![','] + nl_indent(level)
    } else {
        seq![',']
    }
}

/// The characters of the quoted field key `name`.
pub open spec fn name_key() -> Seq<char> {
    seq!['"', 'n', 'a', 'm', 'e', '"']
}

/// The characters of the quoted field key `data`.
pub open spec fn data_key() -> Seq<char> {
    seq!['"', 'd', 'a', 't', 'a', '"']
}

/// The characters of the quoted field key `nested`.
pub open spec fn nested_key() -> Seq<char> {
    seq!['"', 'n', 'e', 's', 't', 'e', 'd', '"']
}

/// One measurement as a JSON object member.
pub open spec fn pt_item(p: (Seq<char>, i64), pretty: bool) -> Seq<char> {
    quoted(p.0) + colon(pretty) + dec_int(p.1 as int)
}

/// The members of a measurement object, joined by the item separator.
pub open spec fn points_items(pairs: Seq<(Seq<char>, i64)>, pretty: bool, level: nat) -> Seq<char>
    decreases pairs.len(),
{
    if pairs.len() == 0 {
        Seq::empty()
    } else if pairs.len() == 1 {
        pt_item(pairs[0], pretty)
    } else {
        points_items(pairs.drop_last(), pretty, level) + item_sep(pretty, level) + pt_item(
            pairs.last(),
            pretty,
        )
    }
}

/// A measurement mapping as a JSON object.
pub open spec fn json_points(pairs: Seq<(Seq<char>, i64)>, pretty: bool, level: nat) -> Seq<char> {
    if pairs.len() == 0 {
        seq!['{', '}']
    } else if pretty {
        seq!['{'] + nl_indent(level + 1) + points_items(pairs, true, level + 1) + nl_indent(level)
            + seq!['}']
    } else {
        seq!['{'] + points_items(pairs, false, level + 1) + seq!['}']
    }
}

/// A verbose node as a JSON object with `name`, `data` and `nested` fields.
pub open spec fn json_verbose(v: VerboseView, pretty: bool, level: nat) -> Seq<char>
    decreases v, 0int,
{
    if pretty {
        seq!['{'] + nl_indent(level + 1) + name_key() + colon(true) + quoted(v.name) + seq![',']
            + nl_indent(level + 1) + data_key() + colon(true) + json_points(v.data, true, level + 1)
            + seq![','] + nl_indent(level + 1) + nested_key() + colon(true) + json_varr(
            v.nested,
            true,
            level + 1,
        ) + nl_indent(level) + seq!['}']
    } else {
        seq!['{'] + name_key() + colon(false) + quoted(v.name) + seq![','] + data_key() + colon(
            false,
        ) + json_points(v.data, false, level + 1) + seq![','] + nested_key() + colon(false)
            + json_varr(v.nested, false, level + 1) + seq!['}']
    }
}

/// The elements of a verbose forest array, joined by the item separator.
pub open spec fn varr_items(s: Seq<VerboseView>, pretty: bool, level: nat) -> Seq<char>
    decreases s, 0int,
{
    if s.len() == 0 {
        Seq::empty()
    } else if s.len() == 1 {
        json_verbose(s[0], pretty, level)
    } else {
        varr_items(s.drop_last(), pretty, level) + item_sep(pretty, level) + json_verbose(
            s.last(),
            pretty,
            level,
        )
    }
}

/// A verbose forest as a JSON array.
pub open spec fn json_varr(s: Seq<VerboseView>, pretty: bool, level: nat) -> Seq<char>
    decreases s, 1int,
{
    if s.len() == 0 {
        seq!['[', ']']
    } else if pretty {
        seq!['['] + nl_indent(level + 1) + varr_items(s, true, level + 1) + nl_indent(level)
            + seq![']']
    } else {
        seq!['['] + varr_items(s, false, level + 1) + seq![']']
    }
}

/// A compact node as a JSON object with `data` and `nested` fields.
pub open spec fn json_centry(c: CompactView, pretty: bool, level: nat) -> Seq<char>
    decreases c, 0int,
{
    if pretty {
        seq!['{'] + nl_indent(level + 1) + data_key() + colon(true) + json_points(
            c.data,
            true,
            level + 1,
        ) + seq![','] + nl_indent(level + 1) + nested_key() + colon(true) + json_cobj(
            c.nested,
            true,
            level + 1,
        ) + nl_indent(level) + seq!['}']
    } else {
        seq!['{'] + data_key() + colon(false) + json_points(c.data, false, level + 1) + seq![',']
            + nested_key() + colon(false) + json_cobj(c.nested, false, level + 1) + seq!['}']
    }
}

/// The members of a compact collection object, joined by the item separator.
pub open spec fn cobj_items(s: Seq<(Seq<char>, CompactView)>, pretty: bool, level: nat) -> Seq<char>
    decreases s, 0int,
{
    if s.len() == 0 {
        Seq::empty()
    } else if s.len() == 1 {
        quoted(s[0].0) + colon(pretty) + json_centry(s[0].1, pretty, level)
    } else {
        cobj_items(s.drop_last(), pretty, level) + item_sep(pretty, level) + quoted(s.last().0)
            + colon(pretty) + json_centry(s.last().1, pretty, level)
    }
}

/// A compact collection as a JSON object keyed by node name.
pub open spec fn json_cobj(s: Seq<(Seq<char>, CompactView)>, pretty: bool, level: nat) -> Seq<char>
    decreases s, 1int,
{
    if s.len() == 0 {
        seq!['{', '}']
    } else if pretty {
        seq!['{'] + nl_indent(level + 1) + cobj_items(s, true, level + 1) + nl_indent(level)
            + seq!['}']
    } else {
        seq!['{'] + cobj_items(s, false, level + 1) + seq!['}']
    }
}

/// Append a single decimal digit.
fn push_digit(out: &mut String, d: u64)
    requires
        d < 10,
    ensures
        final(out)@ == old(out)@ + seq![digit_char(d as nat)],
{
    let s: &str = match d {
        0 => "0",
        1 => "1",
        2 => "2",
        3 => "3",
        4 => "4",
        5 => "5",
        6 => "6",
        7 => "7",
        8 => "8",
        _ => "9",
    };
    proof {
        reveal_strlit("0");
        reveal_strlit("1");
        reveal_strlit("2");
        reveal_strlit("3");
        reveal_strlit("4");
        reveal_strlit("5");
        reveal_strlit("6");
        reveal_strlit("7");
        reveal_strlit("8");
        reveal_strlit("9");
        assert(s@ =~= seq![digit_char(d as nat)]);
    }
    out.append(s);
}

/// Append a single hexadecimal digit.
fn push_hex_digit(out: &mut String, d: u32)
    requires
        d < 16,
    ensures
        final(out)@ == old(out)@ + seq![hex_digit(d as nat)],
{
    let s: &str = match d {
        0 => "0",
        1 => "1",
        2 => "2",
        3 => "3",
        4 => "4",
        5 => "5",
        6 => "6",
        7 => "7",
        8 => "8",
        9 => "9",
        10 => "a",
        11 => "b",
        12 => "c",
        13 => "d",
        14 => "e",
        _ => "f",
    };
    proof {
        reveal_strlit("0");
        reveal_strlit("1");
        reveal_strlit("2");
        reveal_strlit("3");
        reveal_strlit("4");
        reveal_strlit("5");
        reveal_strlit("6");
        reveal_strlit("7");
        reveal_strlit("8");
        reveal_strlit("9");
        reveal_strlit("a");
        reveal_strlit("b");
        reveal_strlit("c");
        reveal_strlit("d");
        reveal_strlit("e");
        reveal_strlit("f");
        assert(s@ =~= seq![hex_digit(d as nat)]);
    }
    out.append(s);
}

/// Append the decimal digits of `n`.
fn push_u64(out: &mut String, n: u64)
    ensures
        final(out)@ == old(out)@ + dec_nat(n as nat),
    decreases n,
{
    if n < 10 {
        push_digit(out, n);
    } else {
        push_u64(out, n / 10);
        push_digit(out, n % 10);
        proof {
            assert(final(out)@ =~= old(out)@ + dec_nat(n as nat));
        }
    }
}

/// Append the decimal rendering of `n`.
fn push_i64(out: &mut String, n: i64)
    ensures
        final(out)@ == old(out)@ + dec_int(n as int),
{
    if n < 0 {
        out.append("-");
        let m: u64 = ((-(n + 1)) as u64) + 1;
        proof {
            reveal_strlit("-");
            assert(m as nat == (-(n as int)) as nat);
        }
        push_u64(out, m);
        proof {
            assert(final(out)@ =~= old(out)@ + dec_int(n as int));
        }
    } else {
        push_u64(out, n as u64);
    }
}

/// Append `s` with every character escaped for JSON.
fn push_escaped(out: &mut String, s: &str)
    ensures
        final(out)@ == old(out)@ + escaped(s@),
{
    let ghost base = out@;
    let n = s.unicode_len();
    let mut i: usize = 0;
    proof {
        assert(s@.take(0) =~= Seq::<char>::empty());
        assert(out@ =~= base + escaped(s@.take(0)));
    }
    while i < n
        invariant
            i <= n,
            n == s@.len(),
            out@ == base + escaped(s@.take(i as int)),
        decreases n - i,
    {
        let ghost before = out@;
        let c = s.get_char(i);
        let cv = c as u32;
        if c == '"' {
            out.append("\\\"");
            proof {
                reveal_strlit("\\\"");
                assert(out@ =~= before + esc_char(c));
            }
        } else if c == '\\' {
            out.append("\\\\");
            proof {
                reveal_strlit("\\\\");
                assert(out@ =~= before + esc_char(c));
            }
        } else if cv == 8 {
            out.append("\\b");
            proof {
                reveal_strlit("\\b");
                assert(out@ =~= before + esc_char(c));
            }
        } else if cv == 9 {
            out.append("\\t");
            proof {
                reveal_strlit("\\t");
                assert(out@ =~= before + esc_char(c));
            }
        } else if cv == 10 {
            out.append("\\n");
            proof {
                reveal_strlit("\\n");
                assert(out@ =~= before + esc_char(c));
            }
        } else if cv == 12 {
            out.append("\\f");
            proof {
                reveal_strlit("\\f");
                assert(out@ =~= before + esc_char(c));
            }
        } else if cv == 13 {
            out.append("\\r");
            proof {
                reveal_strlit("\\r");
                assert(out@ =~= before + esc_char(c));
            }
        } else if cv < 32 {
            out.append("\\u00");
            push_hex_digit(out, cv / 16);
            push_hex_digit(out, cv % 16);
            proof {
                reveal_strlit("\\u00");
                assert(out@ =~= before + esc_char(c));
            }
        } else {
            let piece = s.substring_char(i, i + 1);
            out.append(piece);
            proof {
                assert(piece@ =~= seq![c]);
                assert(out@ =~= before + esc_char(c));
            }
        }
        proof {
            assert(s@.take(i + 1).drop_last() =~= s@.take(i as int));
            assert(s@.take(i + 1).last() == s@[i as int]);
            assert(escaped(s@.take(i + 1)) == escaped(s@.take(i as int)) + esc_char(s@[i as int]));
            assert(out@ =~= base + escaped(s@.take(i + 1)));
        }
        i += 1;
    }
    proof {
        assert(s@.take(n as int) =~= s@);
    }
}

/// Append `s` as a JSON string literal.
fn push_quoted(out: &mut String, s: &str)
    ensures
        final(out)@ == old(out)@ + quoted(s@),
{
    let ghost base = out@;
    out.append("\"");
    push_escaped(out, s);
    out.append("\"");
    proof {
        reveal_strlit("\"");
        assert(out@ =~= base + quoted(s@));
    }
}

/// Append a line break and the indentation of `level`, kept in `indent` as
/// text.
fn push_nl_indent(out: &mut String, indent: &str, Ghost(level): Ghost<nat>)
    requires
        indent@ == spaces(2 * level),
    ensures
        final(out)@ == old(out)@ + nl_indent(level),
{
    let ghost base = out@;
    out.append("\n");
    out.append(indent);
    proof {
        reveal_strlit("\n");
        assert(out@ =~= base + nl_indent(level));
    }
}

/// The indentation text one level deeper than `indent`.
fn grow_indent(indent: &str, Ghost(level): Ghost<nat>) -> (r: String)
    requires
        indent@ == spaces(2 * level),
    ensures
        r@ == spaces(2 * (level + 1)),
{
    let mut r = indent.to_owned();
    r.append("  ");
    proof {
        reveal_strlit("  ");
        assert(spaces(2 * level + 2) == spaces(2 * level + 1).push(' '));
        assert(spaces(2 * level + 1) == spaces(2 * level).push(' '));
        assert(r@ =~= spaces(2 * (level + 1)));
    }
    r
}

/// Append the `name` field key and its separator.
fn push_name_key(out: &mut String, pretty: bool)
    ensures
        final(out)@ == old(out)@ + name_key() + colon(pretty),
{
    if pretty {
        out.append("\"name\": ");
        proof {
            reveal_strlit("\"name\": ");
            assert(final(out)@ =~= old(out)@ + name_key() + colon(true));
        }
    } else {
        out.append("\"name\":");
        proof {
            reveal_strlit("\"name\":");
            assert(final(out)@ =~= old(out)@ + name_key() + colon(false));
        }
    }
}

/// Append the `data` field key and its separator.
fn push_data_key(out: &mut String, pretty: bool)
    ensures
        final(out)@ == old(out)@ + data_key() + colon(pretty),
{
    if pretty {
        out.append("\"data\": ");
        proof {
            reveal_strlit("\"data\": ");
            assert(final(out)@ =~= old(out)@ + data_key() + colon(true));
        }
    } else {
        out.append("\"data\":");
        proof {
            reveal_strlit("\"data\":");
            assert(final(out)@ =~= old(out)@ + data_key() + colon(false));
        }
    }
}

/// Append the `nested` field key and its separator.
fn push_nested_key(out: &mut String, pretty: bool)
    ensures
        final(out)@ == old(out)@ + nested_key() + colon(pretty),
{
    if pretty {
        out.append("\"nested\": ");
        proof {
            reveal_strlit("\"nested\": ");
            assert(final(out)@ =~= old(out)@ + nested_key() + colon(true));
        }
    } else {
        out.append("\"nested\":");
        proof {
            reveal_strlit("\"nested\":");
            assert(final(out)@ =~= old(out)@ + nested_key() + colon(false));
        }
    }
}

/// Append a measurement mapping as a JSON object.
#[verifier::rlimit(60)]
fn push_points(out: &mut String, pts: &NeighbourhoodPoints, pretty: bool, indent: &str, Ghost(level): Ghost<nat>)
    requires
        indent@ == spaces(2 * level),
    ensures
        final(out)@ == old(out)@ + json_points(pts@, pretty, level),
{
    let ghost base = out@;
    let ghost pv = pts@;
    let n = pts.entries.len();
    if n == 0 {
        out.append("{}");
        proof {
            reveal_strlit("{}");
            assert(out@ =~= base + json_points(pv, pretty, level));
        }
        return ;
    }
    let inner = grow_indent(indent, Ghost(level));
    out.append("{");
    proof {
        reveal_strlit("{");
        assert(out@ =~= base + seq!['{']);
    }
    let mut k: usize = 0;
    while k < n
        invariant
            0 <= k <= n,
            n == pts.entries.len(),
            pv == pts@,
            pv.len() == n,
            inner@ == spaces(2 * (level + 1)),
            indent@ == spaces(2 * level),
            out@ == base + seq!['{'] + if k == 0 {
                Seq::<char>::empty()
            } else {
                (if pretty {
                    nl_indent(level + 1)
                } else {
                    Seq::<char>::empty()
                }) + points_items(pv.take(k as int), pretty, level + 1)
            },
        decreases n - k,
    {
        let ghost before = out@;
        if k == 0 {
            if pretty {
                push_nl_indent(out, inner.as_str(), Ghost(level + 1));
            }
        } else {
            out.append(",");
            proof {
                reveal_strlit(",");
            }
            if pretty {
                push_nl_indent(out, inner.as_str(), Ghost(level + 1));
            }
        }
        push_quoted(out, pts.entries[k].0.as_str());
        if pretty {
            out.append(": ");
        } else {
            out.append(":");
        }
        push_i64(out, pts.entries[k].1);
        proof {
            reveal_strlit(": ");
            reveal_strlit(":");
            assert(pv[k as int] == (pts.entries@[k as int].0@, pts.entries@[k as int].1));
            assert(pv.take(k + 1).drop_last() =~= pv.take(k as int));
            assert(pv.take(k + 1).last() == pv[k as int]);
            if k == 0 {
                assert(points_items(pv.take(1), pretty, level + 1) == pt_item(pv[0], pretty));
            }
            assert(out@ =~= base + seq!['{'] + (if pretty {
                nl_indent(level + 1)
            } else {
                Seq::<char>::empty()
            }) + points_items(pv.take(k + 1), pretty, level + 1));
        }
        k += 1;
    }
    proof {
        assert(pv.take(n as int) =~= pv);
    }
    if pretty {
        push_nl_indent(out, indent, Ghost(level));
    }
    out.append("}");
    proof {
        reveal_strlit("}");
        assert(out@ =~= base + json_points(pv, pretty, level));
    }
}

/// Append a verbose node as a JSON object.
#[verifier::rlimit(60)]
fn push_verbose(out: &mut String, v: &VerboseEntry, pretty: bool, indent: &str, Ghost(level): Ghost<nat>)
    requires
        indent@ == spaces(2 * level),
    ensures
        final(out)@ == old(out)@ + json_verbose(v@, pretty, level),
    decreases *v, 0int,
{
    let ghost base = out@;
    proof {
        assert(decreases_to!(*v => v.nested));
    }
    let inner = grow_indent(indent, Ghost(level));
    out.append("{");
    if pretty {
        push_nl_indent(out, inner.as_str(), Ghost(level + 1));
    }
    push_name_key(out, pretty);
    push_quoted(out, v.name.as_str());
    out.append(",");
    if pretty {
        push_nl_indent(out, inner.as_str(), Ghost(level + 1));
    }
    push_data_key(out, pretty);
    push_points(out, &v.data, pretty, inner.as_str(), Ghost(level + 1));
    out.append(",");
    if pretty {
        push_nl_indent(out, inner.as_str(), Ghost(level + 1));
    }
    push_nested_key(out, pretty);
    push_varr(out, &v.nested, pretty, inner.as_str(), Ghost(level + 1));
    if pretty {
        push_nl_indent(out, indent, Ghost(level));
    }
    out.append("}");
    proof {
        reveal_strlit("{");
        reveal_strlit("}");
        reveal_strlit(",");
        assert(out@ =~= base + json_verbose(v@, pretty, level));
    }
}

/// Append a verbose forest as a JSON array.
#[verifier::rlimit(60)]
fn push_varr(out: &mut String, s: &Vec<VerboseEntry>, pretty: bool, indent: &str, Ghost(level): Ghost<nat>)
    requires
        indent@ == spaces(2 * level),
    ensures
        final(out)@ == old(out)@ + json_varr(crate::layout::verbose_view_seq(s@), pretty, level),
    decreases *s, 1int,
{
    let ghost base = out@;
    let ghost vs = crate::layout::verbose_view_seq(s@);
    proof {
        crate::layout::lemma_verbose_view_seq(s@);
    }
    let n = s.len();
    if n == 0 {
        out.append("[]");
        proof {
            reveal_strlit("[]");
            assert(out@ =~= base + json_varr(vs, pretty, level));
        }
        return ;
    }
    let inner = grow_indent(indent, Ghost(level));
    out.append("[");
    proof {
        reveal_strlit("[");
        assert(out@ =~= base + seq!['[']);
    }
    let mut k: usize = 0;
    while k < n
        invariant
            0 <= k <= n,
            n == s.len(),
            vs == crate::layout::verbose_view_seq(s@),
            vs.len() == n,
            forall|i: int| 0 <= i < n ==> vs[i] == crate::layout::verbose_view(s@[i]),
            inner@ == spaces(2 * (level + 1)),
            indent@ == spaces(2 * level),
            out@ == base + seq!['['] + if k == 0 {
                Seq::<char>::empty()
            } else {
                (if pretty {
                    nl_indent(level + 1)
                } else {
                    Seq::<char>::empty()
                }) + varr_items(vs.take(k as int), pretty, level + 1)
            },
        decreases n - k,
    {
        if k == 0 {
            if pretty {
                push_nl_indent(out, inner.as_str(), Ghost(level + 1));
            }
        } else {
            out.append(",");
            proof {
                reveal_strlit(",");
            }
            if pretty {
                push_nl_indent(out, inner.as_str(), Ghost(level + 1));
            }
        }
        proof {
            assert(decreases_to!(*s => s@));
            assert(decreases_to!(s@ => s@[k as int]));
        }
        push_verbose(out, &s[k], pretty, inner.as_str(), Ghost(level + 1));
        proof {
            assert(vs.take(k + 1).drop_last() =~= vs.take(k as int));
            assert(vs.take(k + 1).last() == vs[k as int]);
            if k == 0 {
                assert(varr_items(vs.take(1), pretty, level + 1) == json_verbose(vs[0], pretty, level + 1));
            }
            assert(out@ =~= base + seq!['['] + (if pretty {
                nl_indent(level + 1)
            } else {
                Seq::<char>::empty()
            }) + varr_items(vs.take(k + 1), pretty, level + 1));
        }
        k += 1;
    }
    proof {
        assert(vs.take(n as int) =~= vs);
    }
    if pretty {
        push_nl_indent(out, indent, Ghost(level));
    }
    out.append("]");
    proof {
        reveal_strlit("]");
        assert(out@ =~= base + json_varr(vs, pretty, level));
    }
}

/// Append a compact node as a JSON object.
#[verifier::rlimit(60)]
fn push_centry(out: &mut String, e: &CompactEntry, pretty: bool, indent: &str, Ghost(level): Ghost<nat>)
    requires
        indent@ == spaces(2 * level),
    ensures
        final(out)@ == old(out)@ + json_centry(e@, pretty, level),
    decreases *e, 0int,
{
    let ghost base = out@;
    proof {
        assert(decreases_to!(*e => e.nested));
    }
    let inner = grow_indent(indent, Ghost(level));
    out.append("{");
    if pretty {
        push_nl_indent(out, inner.as_str(), Ghost(level + 1));
    }
    push_data_key(out, pretty);
    push_points(out, &e.data, pretty, inner.as_str(), Ghost(level + 1));
    out.append(",");
    if pretty {
        push_nl_indent(out, inner.as_str(), Ghost(level + 1));
    }
    push_nested_key(out, pretty);
    push_cobj(out, &e.nested, pretty, inner.as_str(), Ghost(level + 1));
    if pretty {
        push_nl_indent(out, indent, Ghost(level));
    }
    out.append("}");
    proof {
        reveal_strlit("{");
        reveal_strlit("}");
        reveal_strlit(",");
        assert(out@ =~= base + json_centry(e@, pretty, level));
    }
}

/// Append a compact collection as a JSON object keyed by node name.
#[verifier::rlimit(60)]
fn push_cobj(out: &mut String, c: &CompactCollection, pretty: bool, indent: &str, Ghost(level): Ghost<nat>)
    requires
        indent@ == spaces(2 * level),
    ensures
        final(out)@ == old(out)@ + json_cobj(c@, pretty, level),
    decreases *c, 1int,
{
    let ghost base = out@;
    let ghost cs = c@;
    proof {
        crate::layout::lemma_compact_view_seq(c.entries@);
    }
    let n = c.entries.len();
    if n == 0 {
        out.append("{}");
        proof {
            reveal_strlit("{}");
            assert(out@ =~= base + json_cobj(cs, pretty, level));
        }
        return ;
    }
    let inner = grow_indent(indent, Ghost(level));
    out.append("{");
    proof {
        reveal_strlit("{");
        assert(out@ =~= base + seq!['{']);
    }
    let mut k: usize = 0;
    while k < n
        invariant
            0 <= k <= n,
            n == c.entries.len(),
            cs == c@,
            cs.len() == n,
            forall|i: int| 0 <= i < n ==> cs[i] == (
                c.entries@[i].0@,
                crate::layout::compact_view(c.entries@[i].1),
            ),
            inner@ == spaces(2 * (level + 1)),
            indent@ == spaces(2 * level),
            out@ == base + seq!['{'] + if k == 0 {
                Seq::<char>::empty()
            } else {
                (if pretty {
                    nl_indent(level + 1)
                } else {
                    Seq::<char>::empty()
                }) + cobj_items(cs.take(k as int), pretty, level + 1)
            },
        decreases n - k,
    {
        if k == 0 {
            if pretty {
                push_nl_indent(out, inner.as_str(), Ghost(level + 1));
            }
        } else {
            out.append(",");
            proof {
                reveal_strlit(",");
            }
            if pretty {
                push_nl_indent(out, inner.as_str(), Ghost(level + 1));
            }
        }
        push_quoted(out, c.entries[k].0.as_str());
        if pretty {
            out.append(": ");
        } else {
            out.append(":");
        }
        proof {
            reveal_strlit(": ");
            reveal_strlit(":");
            assert(decreases_to!(*c => c.entries));
            assert(decreases_to!(c.entries => c.entries@));
            assert(decreases_to!(c.entries@ => c.entries@[k as int]));
            assert(decreases_to!(c.entries@[k as int] => c.entries@[k as int].1));
        }
        push_centry(out, &c.entries[k].1, pretty, inner.as_str(), Ghost(level + 1));
        proof {
            assert(cs.take(k + 1).drop_last() =~= cs.take(k as int));
            assert(cs.take(k + 1).last() == cs[k as int]);
            if k == 0 {
                assert(cobj_items(cs.take(1), pretty, level + 1) == quoted(cs[0].0) + colon(pretty)
                    + json_centry(cs[0].1, pretty, level + 1));
            }
            assert(out@ =~= base + seq!['{'] + (if pretty {
                nl_indent(level + 1)
            } else {
                Seq::<char>::empty()
            }) + cobj_items(cs.take(k + 1), pretty, level + 1));
        }
        k += 1;
    }
    proof {
        assert(cs.take(n as int) =~= cs);
    }
    if pretty {
        push_nl_indent(out, indent, Ghost(level));
    }
    out.append("}");
    proof {
        reveal_strlit("}");
        assert(out@ =~= base + json_cobj(cs, pretty, level));
    }
}

/// Render a verbose forest as a JSON array, minified or pretty-printed.
pub fn verbose_to_json(entries: &Vec<VerboseEntry>, pretty: bool) -> (s: String)
    ensures
        s@ == json_varr(crate::layout::verbose_view_seq(entries@), pretty, 0),
{
    let mut out = String::new();
    let indent = String::new();
    proof {
        assert(indent@ =~= spaces(0));
    }
    push_varr(&mut out, entries, pretty, indent.as_str(), Ghost(0nat));
    proof {
        assert(out@ =~= json_varr(crate::layout::verbose_view_seq(entries@), pretty, 0));
    }
    out
}

/// Render a compact collection as a JSON object, minified or pretty-printed.
pub fn compact_to_json(collection: &CompactCollection, pretty: bool) -> (s: String)
    ensures
        s@ == json_cobj(collection@, pretty, 0),
{
    let mut out = String::new();
    let indent = String::new();
    proof {
        assert(indent@ =~= spaces(0));
    }
    push_cobj(&mut out, collection, pretty, indent.as_str(), Ghost(0nat));
    proof {
        assert(out@ =~= json_cobj(collection@, pretty, 0));
    }
    out
}

/// The serialized text is a function of the tree's model alone: any decoding
/// that reproduces the model re-serializes to byte-identical text.
pub proof fn lemma_reserialization_identical(a: Seq<VerboseView>, b: Seq<VerboseView>, pretty: bool)
    requires
        a == b,
    ensures
        json_varr(a, pretty, 0) == json_varr(b, pretty, 0),
{
}

} // verus!
