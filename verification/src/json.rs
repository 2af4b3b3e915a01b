//! The serializer: renders an ordered entry list as the wire JSON schema.
//!
//! Each entry becomes one object whose `"type"` key carries the variant tag
//! (`"directory"` or `"file"`); `"size"` appears on file objects only. Names
//! and times are JSON string literals with `"`, `\` and control characters
//! escaped.

use crate::explorer::{EntryModel, ExplorerEntry};
use crate::sort::models;
use vstd::prelude::*;
use vstd::string::{StrSliceExecFns, StringExecFns};

verus! {

/// The lower-case hexadecimal digit for `d`.
pub open spec fn hex_char(d: u32) -> char
    recommends
        d < 16,
{
    if d < 10 {
        ((d + 48) as u8) as char
    } else {
        ((d + 87) as u8) as char
    }
}

/// How one character appears inside a JSON string literal: quote and
/// backslash get a backslash escape, control characters a `\u00..` escape,
/// and every other character stands for itself.
pub open spec fn esc_char(c: char) -> Seq<char> {
    if c == '"' {
        seq!['\\', '"']
    } else if c == '\\' {
        seq!['\\', '\\']
    } else if (c as u32) < 32 {
        seq!['\\', 'u', '0', '0', hex_char((c as u32) / 16), hex_char((c as u32) % 16)]
    } else {
        seq![c]
    }
}

/// A character sequence escaped for a JSON string literal.
pub open spec fn esc(s: Seq<char>) -> Seq<char>
    decreases s.len(),
{
    if s.len() == 0 {
        Seq::empty()
    } else {
        esc_char(s[0]) + esc(s.skip(1))
    }
}

/// A JSON string literal: the escaped content between two quotes.
pub open spec fn quoted(s: Seq<char>) -> Seq<char> {
    seq!['"'] + esc(s) + seq!['"']
}

/// The decimal digit for `d`.
pub open spec fn digit_char(d: u64) -> char
    recommends
        d < 10,
{
    ((d + 48) as u8) as char
}

/// The decimal rendering of `n`, without leading zeros.
pub open spec fn dec_rep(n: u64) -> Seq<char>
    decreases n,
{
    if n < 10 {
        seq![digit_char(n)]
    } else {
        dec_rep(n / 10).push(digit_char(n % 10))
    }
}

/// The JSON object for one entry.
pub open spec fn json_of_entry(e: EntryModel) -> Seq<char> {
    match e {
        EntryModel::Directory { mtime, name } => "{\"type\":\"directory\",\"name\":"@ + quoted(
            name,
        ) + ",\"mtime\":"@ + quoted(mtime) + "}"@,
        EntryModel::File { mtime, name, size } => "{\"type\":\"file\",\"name\":"@ + quoted(name)
            + ",\"mtime\":"@ + quoted(mtime) + ",\"size\":"@ + dec_rep(size) + "}"@,
    }
}

/// The comma-separated entry objects.
pub open spec fn json_items(l: Seq<EntryModel>) -> Seq<char>
    decreases l.len(),
{
    if l.len() == 0 {
        Seq::empty()
    } else if l.len() == 1 {
        json_of_entry(l[0])
    } else {
        json_of_entry(l[0]) + ","@ + json_items(l.skip(1))
    }
}

/// The JSON array for a whole listing, preserving the order of `l`.
pub open spec fn json_of(l: Seq<EntryModel>) -> Seq<char> {
    "["@ + json_items(l) + "]"@
}

/// Relies on String::push: appends one character to the string.
#[verifier::external_body]
fn push_char(out: &mut String, c: char)
    ensures
        final (out)@ == old(out)@.push(c),
{
    out.push(c);
}

/// Escaping distributes over concatenation.
proof fn lemma_esc_append(a: Seq<char>, b: Seq<char>)
    ensures
        esc(a + b) == esc(a) + esc(b),
    decreases a.len(),
{
    if a.len() == 0 {
        assert(a + b =~= b);
        assert(esc(a) + esc(b) =~= esc(b));
    } else {
        lemma_esc_append(a.skip(1), b);
        assert((a + b).skip(1) =~= a.skip(1) + b);
        assert(esc_char((a + b)[0]) + (esc(a.skip(1)) + esc(b)) =~= (esc_char(a[0]) + esc(
            a.skip(1),
        )) + esc(b));
    }
}

/// Append the escaped form of `s` to `out`.
fn append_escaped(out: &mut String, s: &str)
    ensures
        final (out)@ == old(out)@ + esc(s@),
{
    let n = s.unicode_len();
    let mut i: usize = 0;
    proof {
        assert(s@.take(0) =~= Seq::<char>::empty());
        assert(old(out)@ + esc(s@.take(0)) =~= old(out)@);
    }
    while i < n
        invariant
            i <= n == s@.len(),
            out@ == old(out)@ + esc(s@.take(i as int)),
        decreases n - i,
    {
        let c = s.get_char(i);
        let code = c as u32;
        if c == '"' {
            push_char(out, '\\');
            push_char(out, '"');
        } else if c == '\\' {
            push_char(out, '\\');
            push_char(out, '\\');
        } else if code < 32 {
            push_char(out, '\\');
            push_char(out, 'u');
            push_char(out, '0');
            push_char(out, '0');
            let hi = code / 16;
            let lo = code % 16;
            push_char(out, if hi < 10 {
                ((hi + 48) as u8) as char
            } else {
                ((hi + 87) as u8) as char
            });
            push_char(out, if lo < 10 {
                ((lo + 48) as u8) as char
            } else {
                ((lo + 87) as u8) as char
            });
        } else {
            push_char(out, c);
        }
        proof {
            assert(s@.take(i + 1) =~= s@.take(i as int) + seq![s@[i as int]]);
            lemma_esc_append(s@.take(i as int), seq![s@[i as int]]);
            assert(esc(seq![s@[i as int]]) =~= esc_char(s@[i as int]) + esc(
                seq![s@[i as int]].skip(1),
            ));
            assert(seq![s@[i as int]].skip(1) =~= Seq::<char>::empty());
            assert(esc(seq![s@[i as int]]) =~= esc_char(s@[i as int]));
            assert(out@ =~= old(out)@ + esc(s@.take(i + 1)));
        }
        i = i + 1;
    }
    proof {
        assert(s@.take(n as int) =~= s@);
    }
}

/// Append `s` as a JSON string literal to `out`.
fn append_quoted(out: &mut String, s: &str)
    ensures
        final (out)@ == old(out)@ + quoted(s@),
{
    push_char(out, '"');
    append_escaped(out, s);
    push_char(out, '"');
    proof {
        assert(out@ =~= old(out)@ + quoted(s@));
    }
}

/// Append the decimal rendering of `n` to `out`.
fn append_decimal(out: &mut String, n: u64)
    ensures
        final (out)@ == old(out)@ + dec_rep(n),
    decreases n,
{
    if n >= 10 {
        append_decimal(out, n / 10);
    }
    let d = (n % 10) as u32;
    push_char(out, ((d + 48) as u8) as char);
    proof {
        if n < 10 {
            assert(old(out)@.push(digit_char(n)) =~= old(out)@ + dec_rep(n));
        } else {
            assert((old(out)@ + dec_rep(n / 10)).push(digit_char(n % 10)) =~= old(out)@ + dec_rep(
                n,
            ));
        }
    }
}

/// Append the JSON object for one entry to `out`.
fn append_entry(out: &mut String, e: &ExplorerEntry)
    ensures
        final (out)@ == old(out)@ + json_of_entry(e@),
{
    match e {
        ExplorerEntry::Directory { mtime, name } => {
            out.append("{\"type\":\"directory\",\"name\":");
            append_quoted(out, name.as_str());
            out.append(",\"mtime\":");
            append_quoted(out, mtime.as_str());
            out.append("}");
            proof {
                assert(out@ =~= old(out)@ + json_of_entry(e@));
            }
        },
        ExplorerEntry::File { mtime, name, size } => {
            out.append("{\"type\":\"file\",\"name\":");
            append_quoted(out, name.as_str());
            out.append(",\"mtime\":");
            append_quoted(out, mtime.as_str());
            out.append(",\"size\":");
            append_decimal(out, *size);
            out.append("}");
            proof {
                assert(out@ =~= old(out)@ + json_of_entry(e@));
            }
        },
    }
}

/// Appending one entry to a listing appends its object (and a separating
/// comma when the listing was not empty).
proof fn lemma_json_items_push(l: Seq<EntryModel>, x: EntryModel)
    ensures
        l.len() == 0 ==> json_items(l.push(x)) == json_of_entry(x),
        l.len() > 0 ==> json_items(l.push(x)) == json_items(l) + ","@ + json_of_entry(x),
    decreases l.len(),
{
    if l.len() == 0 {
        assert(l.push(x).len() == 1);
        assert(l.push(x)[0] == x);
    } else {
        lemma_json_items_push(l.skip(1), x);
        assert(l.push(x).skip(1) =~= l.skip(1).push(x));
        assert(l.push(x)[0] == l[0]);
        if l.len() == 1 {
            assert(json_items(l.push(x)) == json_of_entry(l[0]) + ","@ + json_items(
                l.skip(1).push(x),
            ));
            assert(json_items(l.skip(1).push(x)) == json_of_entry(x));
            assert(json_items(l) == json_of_entry(l[0]));
        } else {
            assert(json_items(l.push(x)) == json_of_entry(l[0]) + ","@ + json_items(
                l.skip(1).push(x),
            ));
            assert(json_items(l.skip(1).push(x)) == json_items(l.skip(1)) + ","@ + json_of_entry(
                x,
            ));
            assert(json_of_entry(l[0]) + ","@ + (json_items(l.skip(1)) + ","@ + json_of_entry(x))
                =~= (json_of_entry(l[0]) + ","@ + json_items(l.skip(1))) + ","@ + json_of_entry(
                x,
            ));
        }
    }
}

/// Render the ordered entry list as the wire JSON array, preserving its
/// order exactly.
pub fn serialize_entries(entries: &Vec<ExplorerEntry>) -> (r: String)
    ensures
        r@ == json_of(models(entries@)),
{
    let mut out = String::new();
    out.append("[");
    let mut i: usize = 0;
    proof {
        assert(models(entries@.take(0)) =~= Seq::<EntryModel>::empty());
        assert(out@ =~= "["@ + json_items(models(entries@.take(0))));
    }
    while i < entries.len()
        invariant
            i <= entries@.len(),
            out@ == "["@ + json_items(models(entries@.take(i as int))),
        decreases entries@.len() - i,
    {
        if i > 0 {
            out.append(",");
        }
        append_entry(&mut out, &entries[i]);
        proof {
            let prev = models(entries@.take(i as int));
            let now = models(entries@.take(i + 1));
            assert(entries@.take(i + 1) =~= entries@.take(i as int).push(entries@[i as int]));
            assert(now =~= prev.push(entries@[i as int]@));
            lemma_json_items_push(prev, entries@[i as int]@);
            assert(prev.len() == i);
            assert(out@ =~= "["@ + json_items(now));
        }
        i = i + 1;
    }
    out.append("]");
    proof {
        assert(entries@.take(entries@.len() as int) =~= entries@);
        assert(out@ =~= json_of(models(entries@)));
    }
    out
}

} // verus!
