//! Round-trip of the wire schema: the serialized JSON determines the entry
//! sequence. Stated as injectivity of the rendering, which is exactly what a
//! decoder needs to reconstruct the input: variant, name, mtime and size of
//! every entry, in order.

use crate::explorer::EntryModel;
use crate::json::{dec_rep, digit_char, esc, esc_char, hex_char, json_items, json_of, json_of_entry,
    quoted};
use vstd::prelude::*;

verus! {

/// Two concatenations with equally long first parts agree part by part.
proof fn lemma_concat_split(a1: Seq<char>, b1: Seq<char>, a2: Seq<char>, b2: Seq<char>)
    requires
        a1 + b1 == a2 + b2,
        a1.len() == a2.len(),
    ensures
        a1 == a2,
        b1 == b2,
{
    assert((a1 + b1).len() == a1.len() + b1.len());
    assert((a2 + b2).len() == a2.len() + b2.len());
    assert(b1.len() == b2.len());
    assert forall|i: int| 0 <= i < a1.len() implies a1[i] == a2[i] by {
        assert((a1 + b1)[i] == a1[i]);
        assert((a2 + b2)[i] == a2[i]);
    }
    assert(a1 =~= a2);
    assert forall|i: int| 0 <= i < b1.len() implies b1[i] == b2[i] by {
        assert((a1 + b1)[a1.len() + i] == b1[i]);
        assert((a2 + b2)[a2.len() + i] == b2[i]);
    }
    assert(b1 =~= b2);
}

/// The escape of one character never starts with a bare quote, and starts
/// with a backslash exactly when the character needs escaping.
proof fn lemma_esc_char_shape(c: char)
    ensures
        esc_char(c).len() >= 1,
        esc_char(c)[0] != '"',
        esc_char(c)[0] == '\\' <==> (c == '"' || c == '\\' || (c as u32) < 32),
{
    if c == '"' || c == '\\' || (c as u32) < 32 {
    } else {
        assert(esc_char(c) == seq![c]);
    }
}

/// One escaped character is recognizable at the head of any continuation.
proof fn lemma_esc_char_prefix(c1: char, c2: char, r1: Seq<char>, r2: Seq<char>)
    requires
        esc_char(c1) + r1 == esc_char(c2) + r2,
    ensures
        c1 == c2,
        r1 == r2,
{
    let s = esc_char(c1) + r1;
    lemma_esc_char_shape(c1);
    lemma_esc_char_shape(c2);
    assert(forall|i: int| 0 <= i < esc_char(c1).len() ==> s[i] == esc_char(c1)[i]);
    assert(forall|i: int| 0 <= i < esc_char(c2).len() ==> s[i] == esc_char(c2)[i]);
    let e1 = (c1 == '"' || c1 == '\\' || (c1 as u32) < 32);
    let e2 = (c2 == '"' || c2 == '\\' || (c2 as u32) < 32);
    if !e1 && !e2 {
        assert(s[0] == c1 && s[0] == c2);
    } else if e1 && !e2 {
        assert(s[0] == '\\' && s[0] == c2);
        assert(false);
    } else if !e1 && e2 {
        assert(s[0] == '\\' && s[0] == c1);
        assert(false);
    } else {
        // Both escaped: the second character separates the three forms.
        if c1 == '"' && c2 == '"' {
        } else if c1 == '\\' && c2 == '\\' {
        } else if c1 == '"' && c2 == '\\' {
            assert(s[1] == '"' && s[1] == '\\');
            assert(false);
        } else if c1 == '\\' && c2 == '"' {
            assert(s[1] == '\\' && s[1] == '"');
            assert(false);
        } else if c1 == '"' || c1 == '\\' {
            // c2 is a control character: its second character is 'u'.
            assert(s[1] == 'u' && (s[1] == '"' || s[1] == '\\'));
            assert(false);
        } else if c2 == '"' || c2 == '\\' {
            assert(s[1] == 'u' && (s[1] == '"' || s[1] == '\\'));
            assert(false);
        } else {
            // Both control characters: the two hex digits pin the code down.
            let d1 = c1 as u32;
            let d2 = c2 as u32;
            assert(s[4] == hex_char(d1 / 16) && s[4] == hex_char(d2 / 16));
            assert(s[5] == hex_char(d1 % 16) && s[5] == hex_char(d2 % 16));
            assert(hex_char(d1 / 16) as u32 == hex_char(d2 / 16) as u32);
            assert(hex_char(d1 % 16) as u32 == hex_char(d2 % 16) as u32);
            assert(d1 / 16 == d2 / 16);
            assert(d1 % 16 == d2 % 16);
            assert(d1 == d2);
            assert(c1 == c2);
        }
    }
    lemma_concat_split(esc_char(c1), r1, esc_char(c2), r2);
}

/// A quoted-and-escaped string is recognizable up to its closing quote.
proof fn lemma_esc_quote_prefix(a: Seq<char>, b: Seq<char>, ra: Seq<char>, rb: Seq<char>)
    requires
        esc(a) + seq!['"'] + ra == esc(b) + seq!['"'] + rb,
    ensures
        a == b,
        ra == rb,
    decreases a.len(),
{
    let s = esc(a) + seq!['"'] + ra;
    if a.len() == 0 {
        assert(esc(a) =~= Seq::<char>::empty());
        assert(s =~= seq!['"'] + ra);
        if b.len() == 0 {
            assert(esc(b) =~= Seq::<char>::empty());
            assert(esc(b) + seq!['"'] + rb =~= seq!['"'] + rb);
            lemma_concat_split(seq!['"'], ra, seq!['"'], rb);
        } else {
            lemma_esc_char_shape(b[0]);
            assert(esc(b) == esc_char(b[0]) + esc(b.skip(1)));
            assert((esc(b) + seq!['"'] + rb)[0] == esc_char(b[0])[0]);
            assert(s[0] == '"');
            assert(false);
        }
    } else {
        if b.len() == 0 {
            lemma_esc_char_shape(a[0]);
            assert(esc(a) == esc_char(a[0]) + esc(a.skip(1)));
            assert(s[0] == esc_char(a[0])[0]);
            assert(esc(b) =~= Seq::<char>::empty());
            assert((esc(b) + seq!['"'] + rb)[0] == '"');
            assert(false);
        } else {
            assert(esc(a) + seq!['"'] + ra =~= esc_char(a[0]) + (esc(a.skip(1)) + seq!['"'] + ra));
            assert(esc(b) + seq!['"'] + rb =~= esc_char(b[0]) + (esc(b.skip(1)) + seq!['"'] + rb));
            lemma_esc_char_prefix(
                a[0],
                b[0],
                esc(a.skip(1)) + seq!['"'] + ra,
                esc(b.skip(1)) + seq!['"'] + rb,
            );
            lemma_esc_quote_prefix(a.skip(1), b.skip(1), ra, rb);
            assert(a =~= seq![a[0]] + a.skip(1));
            assert(b =~= seq![b[0]] + b.skip(1));
        }
    }
}

/// Whether `c` is a decimal digit.
spec fn is_digit(c: char) -> bool {
    48 <= (c as u32) <= 57
}

/// Every character of a decimal rendering is a digit, and there is at least
/// one.
proof fn lemma_dec_rep_digits(n: u64)
    ensures
        dec_rep(n).len() >= 1,
        forall|i: int| 0 <= i < dec_rep(n).len() ==> is_digit(#[trigger] dec_rep(n)[i]),
    decreases n,
{
    if n < 10 {
        assert(dec_rep(n) == seq![digit_char(n)]);
        assert(digit_char(n) as u32 == n + 48);
    } else {
        lemma_dec_rep_digits(n / 10);
        assert(dec_rep(n) == dec_rep(n / 10).push(digit_char(n % 10)));
        assert(digit_char(n % 10) as u32 == n % 10 + 48);
        assert(forall|i: int|
            0 <= i < dec_rep(n / 10).len() ==> dec_rep(n)[i] == dec_rep(n / 10)[i]);
    }
}

/// Equal decimal renderings come from equal numbers.
proof fn lemma_dec_rep_inj(m: u64, n: u64)
    requires
        dec_rep(m) == dec_rep(n),
    ensures
        m == n,
    decreases m,
{
    lemma_dec_rep_digits(m);
    lemma_dec_rep_digits(n);
    if m < 10 && n < 10 {
        assert(dec_rep(m)[0] == digit_char(m));
        assert(dec_rep(n)[0] == digit_char(n));
        assert(digit_char(m) as u32 == m + 48);
        assert(digit_char(n) as u32 == n + 48);
    } else if m < 10 {
        assert(dec_rep(m).len() == 1);
        lemma_dec_rep_digits(n / 10);
        assert(dec_rep(n).len() == dec_rep(n / 10).len() + 1);
        assert(false);
    } else if n < 10 {
        assert(dec_rep(n).len() == 1);
        lemma_dec_rep_digits(m / 10);
        assert(dec_rep(m).len() == dec_rep(m / 10).len() + 1);
        assert(false);
    } else {
        let dm = dec_rep(m / 10);
        let dn = dec_rep(n / 10);
        assert(dec_rep(m) == dm.push(digit_char(m % 10)));
        assert(dec_rep(n) == dn.push(digit_char(n % 10)));
        assert(dm.push(digit_char(m % 10)).len() == dm.len() + 1);
        assert(dm.len() == dn.len());
        assert(dec_rep(m).last() == digit_char(m % 10));
        assert(dec_rep(n).last() == digit_char(n % 10));
        assert(digit_char(m % 10) as u32 == m % 10 + 48);
        assert(digit_char(n % 10) as u32 == n % 10 + 48);
        assert(m % 10 == n % 10);
        assert(dm =~= dec_rep(m).take(dm.len() as int));
        assert(dn =~= dec_rep(n).take(dn.len() as int));
        lemma_dec_rep_inj(m / 10, n / 10);
        assert(m == (m / 10) * 10 + m % 10);
        assert(n == (n / 10) * 10 + n % 10);
    }
}

/// A decimal rendering is recognizable up to a non-digit terminator.
proof fn lemma_dec_prefix(m: u64, n: u64, r1: Seq<char>, r2: Seq<char>)
    requires
        dec_rep(m) + r1 == dec_rep(n) + r2,
        r1.len() > 0,
        r2.len() > 0,
        !is_digit(r1[0]),
        !is_digit(r2[0]),
    ensures
        m == n,
        r1 == r2,
{
    lemma_dec_rep_digits(m);
    lemma_dec_rep_digits(n);
    let s = dec_rep(m) + r1;
    let lm = dec_rep(m).len() as int;
    let ln = dec_rep(n).len() as int;
    if lm < ln {
        assert(s[lm] == r1[0]);
        assert(s[lm] == dec_rep(n)[lm]);
        assert(is_digit(dec_rep(n)[lm]));
        assert(false);
    } else if ln < lm {
        assert(s[ln] == r2[0]);
        assert(s[ln] == dec_rep(m)[ln]);
        assert(is_digit(dec_rep(m)[ln]));
        assert(false);
    }
    lemma_concat_split(dec_rep(m), r1, dec_rep(n), r2);
    lemma_dec_rep_inj(m, n);
}

/// The rendering of a directory entry, followed by anything, unfolded to
/// the shape the string lemmas read.
#[verifier::spinoff_prover]
proof fn lemma_dir_shape(t: Seq<char>, n: Seq<char>, r: Seq<char>)
    ensures
        json_of_entry(EntryModel::Directory { mtime: t, name: n }) + r
            == "{\"type\":\"directory\",\"name\":"@ + (seq!['"'] + (esc(n) + seq!['"'] + (
        ",\"mtime\":"@ + (seq!['"'] + (esc(t) + seq!['"'] + ("}"@ + r)))))),
{
    assert(json_of_entry(EntryModel::Directory { mtime: t, name: n }) + r
        =~= "{\"type\":\"directory\",\"name\":"@ + (seq!['"'] + (esc(n) + seq!['"'] + (
    ",\"mtime\":"@ + (seq!['"'] + (esc(t) + seq!['"'] + ("}"@ + r)))))));
}

/// The rendering of a file entry, followed by anything, unfolded to the
/// shape the string lemmas read.
#[verifier::spinoff_prover]
proof fn lemma_file_shape(t: Seq<char>, n: Seq<char>, sz: u64, r: Seq<char>)
    ensures
        json_of_entry(EntryModel::File { mtime: t, name: n, size: sz }) + r
            == "{\"type\":\"file\",\"name\":"@ + (seq!['"'] + (esc(n) + seq!['"'] + (
        ",\"mtime\":"@ + (seq!['"'] + (esc(t) + seq!['"'] + (",\"size\":"@ + (dec_rep(sz) + (
        "}"@ + r)))))))),
{
    assert(json_of_entry(EntryModel::File { mtime: t, name: n, size: sz }) + r
        =~= "{\"type\":\"file\",\"name\":"@ + (seq!['"'] + (esc(n) + seq!['"'] + (
    ",\"mtime\":"@ + (seq!['"'] + (esc(t) + seq!['"'] + (",\"size\":"@ + (dec_rep(sz) + (
    "}"@ + r)))))))));
}

/// Two directory renderings with a common continuation agree.
#[verifier::spinoff_prover]
proof fn lemma_dir_dir_prefix(e1: EntryModel, e2: EntryModel, r1: Seq<char>, r2: Seq<char>)
    requires
        e1 matches EntryModel::Directory { .. },
        e2 matches EntryModel::Directory { .. },
        json_of_entry(e1) + r1 == json_of_entry(e2) + r2,
    ensures
        e1 == e2,
        r1 == r2,
{
    let (t1, n1) = (e1->Directory_mtime, e1->Directory_name);
    let (t2, n2) = (e2->Directory_mtime, e2->Directory_name);
    let pd = "{\"type\":\"directory\",\"name\":"@;
    let pm = ",\"mtime\":"@;
    let pb = "}"@;
    lemma_dir_shape(t1, n1, r1);
    lemma_dir_shape(t2, n2, r2);
    let b1 = esc(n1) + seq!['"'] + (pm + (seq!['"'] + (esc(t1) + seq!['"'] + (pb + r1))));
    let b2 = esc(n2) + seq!['"'] + (pm + (seq!['"'] + (esc(t2) + seq!['"'] + (pb + r2))));
    lemma_concat_split(pd, seq!['"'] + b1, pd, seq!['"'] + b2);
    lemma_concat_split(seq!['"'], b1, seq!['"'], b2);
    lemma_esc_quote_prefix(
        n1,
        n2,
        pm + (seq!['"'] + (esc(t1) + seq!['"'] + (pb + r1))),
        pm + (seq!['"'] + (esc(t2) + seq!['"'] + (pb + r2))),
    );
    lemma_concat_split(
        pm,
        seq!['"'] + (esc(t1) + seq!['"'] + (pb + r1)),
        pm,
        seq!['"'] + (esc(t2) + seq!['"'] + (pb + r2)),
    );
    lemma_concat_split(
        seq!['"'],
        esc(t1) + seq!['"'] + (pb + r1),
        seq!['"'],
        esc(t2) + seq!['"'] + (pb + r2),
    );
    lemma_esc_quote_prefix(t1, t2, pb + r1, pb + r2);
    lemma_concat_split(pb, r1, pb, r2);
}

/// Two file renderings with a common continuation agree.
#[verifier::spinoff_prover]
proof fn lemma_file_file_prefix(e1: EntryModel, e2: EntryModel, r1: Seq<char>, r2: Seq<char>)
    requires
        e1 matches EntryModel::File { .. },
        e2 matches EntryModel::File { .. },
        json_of_entry(e1) + r1 == json_of_entry(e2) + r2,
    ensures
        e1 == e2,
        r1 == r2,
{
    let (t1, n1, s1) = (e1->File_mtime, e1->File_name, e1->File_size);
    let (t2, n2, s2) = (e2->File_mtime, e2->File_name, e2->File_size);
    let pf = "{\"type\":\"file\",\"name\":"@;
    let pm = ",\"mtime\":"@;
    let ps = ",\"size\":"@;
    let pb = "}"@;
    lemma_file_shape(t1, n1, s1, r1);
    lemma_file_shape(t2, n2, s2, r2);
    let b1 = esc(n1) + seq!['"'] + (pm + (seq!['"'] + (esc(t1) + seq!['"'] + (ps + (dec_rep(s1) + (
    pb + r1))))));
    let b2 = esc(n2) + seq!['"'] + (pm + (seq!['"'] + (esc(t2) + seq!['"'] + (ps + (dec_rep(s2) + (
    pb + r2))))));
    lemma_concat_split(pf, seq!['"'] + b1, pf, seq!['"'] + b2);
    lemma_concat_split(seq!['"'], b1, seq!['"'], b2);
    lemma_esc_quote_prefix(
        n1,
        n2,
        pm + (seq!['"'] + (esc(t1) + seq!['"'] + (ps + (dec_rep(s1) + (pb + r1))))),
        pm + (seq!['"'] + (esc(t2) + seq!['"'] + (ps + (dec_rep(s2) + (pb + r2))))),
    );
    lemma_concat_split(
        pm,
        seq!['"'] + (esc(t1) + seq!['"'] + (ps + (dec_rep(s1) + (pb + r1)))),
        pm,
        seq!['"'] + (esc(t2) + seq!['"'] + (ps + (dec_rep(s2) + (pb + r2)))),
    );
    lemma_concat_split(
        seq!['"'],
        esc(t1) + seq!['"'] + (ps + (dec_rep(s1) + (pb + r1))),
        seq!['"'],
        esc(t2) + seq!['"'] + (ps + (dec_rep(s2) + (pb + r2))),
    );
    lemma_esc_quote_prefix(t1, t2, ps + (dec_rep(s1) + (pb + r1)), ps + (dec_rep(s2) + (pb + r2)));
    lemma_concat_split(ps, dec_rep(s1) + (pb + r1), ps, dec_rep(s2) + (pb + r2));
    reveal_strlit("}");
    assert((pb + r1)[0] == '}');
    assert((pb + r2)[0] == '}');
    lemma_dec_prefix(s1, s2, pb + r1, pb + r2);
    lemma_concat_split(pb, r1, pb, r2);
}

/// The tenth character of an entry object names the variant: 'd' or 'f'.
#[verifier::spinoff_prover]
proof fn lemma_entry_discriminant(e: EntryModel, r: Seq<char>)
    ensures
        (json_of_entry(e) + r).len() > 9,
        e is Directory ==> (json_of_entry(e) + r)[9] == 'd',
        e is File ==> (json_of_entry(e) + r)[9] == 'f',
{
    reveal_strlit("{\"type\":\"directory\",\"name\":");
    reveal_strlit("{\"type\":\"file\",\"name\":");
    match e {
        EntryModel::Directory { mtime, name } => {
            lemma_dir_shape(mtime, name, r);
            let pd = "{\"type\":\"directory\",\"name\":"@;
            assert(pd.len() == 27);
            assert(pd[9] == 'd');
            assert((json_of_entry(e) + r)[9] == pd[9]);
        },
        EntryModel::File { mtime, name, size } => {
            lemma_file_shape(mtime, name, size, r);
            let pf = "{\"type\":\"file\",\"name\":"@;
            assert(pf.len() == 22);
            assert(pf[9] == 'f');
            assert((json_of_entry(e) + r)[9] == pf[9]);
        },
    }
}

/// One entry's JSON object is recognizable at the head of any continuation.
proof fn lemma_entry_prefix(e1: EntryModel, e2: EntryModel, r1: Seq<char>, r2: Seq<char>)
    requires
        json_of_entry(e1) + r1 == json_of_entry(e2) + r2,
    ensures
        e1 == e2,
        r1 == r2,
{
    lemma_entry_discriminant(e1, r1);
    lemma_entry_discriminant(e2, r2);
    if e1 is Directory && e2 is Directory {
        lemma_dir_dir_prefix(e1, e2, r1, r2);
    } else if e1 is File && e2 is File {
        lemma_file_file_prefix(e1, e2, r1, r2);
    } else {
        assert(false);
    }
}

/// An entry object starts with an opening brace.
proof fn lemma_entry_starts_brace(e: EntryModel)
    ensures
        json_of_entry(e).len() > 0,
        json_of_entry(e)[0] == '{',
{
    reveal_strlit("{\"type\":\"directory\",\"name\":");
    reveal_strlit("{\"type\":\"file\",\"name\":");
    match e {
        EntryModel::Directory { mtime, name } => {
            lemma_dir_shape(mtime, name, Seq::empty());
            assert((json_of_entry(e) + Seq::<char>::empty())[0]
                == "{\"type\":\"directory\",\"name\":"@[0]);
            assert((json_of_entry(e) + Seq::<char>::empty())[0] == json_of_entry(e)[0]);
        },
        EntryModel::File { mtime, name, size } => {
            lemma_file_shape(mtime, name, size, Seq::empty());
            assert((json_of_entry(e) + Seq::<char>::empty())[0]
                == "{\"type\":\"file\",\"name\":"@[0]);
            assert((json_of_entry(e) + Seq::<char>::empty())[0] == json_of_entry(e)[0]);
        },
    }
}

/// A non-empty run of entry objects, with its closing bracket and anything
/// after, unfolded by one entry.
#[verifier::spinoff_prover]
proof fn lemma_items_shape(l: Seq<EntryModel>, r: Seq<char>)
    requires
        l.len() > 0,
    ensures
        l.len() == 1 ==> json_items(l) + seq![']'] + r == json_of_entry(l[0]) + (seq![']'] + r),
        l.len() > 1 ==> json_items(l) + seq![']'] + r == json_of_entry(l[0]) + (","@ + (json_items(
        l.skip(1)) + seq![']'] + r)),
{
    if l.len() == 1 {
        assert(json_items(l) + seq![']'] + r =~= json_of_entry(l[0]) + (seq![']'] + r));
    } else {
        assert(json_items(l) + seq![']'] + r =~= json_of_entry(l[0]) + (","@ + (json_items(
        l.skip(1)) + seq![']'] + r)));
    }
}

/// A comma-separated run of entry objects is recognizable up to a closing
/// bracket.
#[verifier::spinoff_prover]
proof fn lemma_items_prefix(l1: Seq<EntryModel>, l2: Seq<EntryModel>, r1: Seq<char>, r2: Seq<char>)
    requires
        json_items(l1) + seq![']'] + r1 == json_items(l2) + seq![']'] + r2,
    ensures
        l1 == l2,
        r1 == r2,
    decreases l1.len(),
{
    reveal_strlit(",");
    if l1.len() == 0 && l2.len() == 0 {
        assert(json_items(l1) + seq![']'] + r1 =~= seq![']'] + r1);
        assert(json_items(l2) + seq![']'] + r2 =~= seq![']'] + r2);
        lemma_concat_split(seq![']'], r1, seq![']'], r2);
        assert(l1 =~= l2);
    } else if l1.len() == 0 {
        lemma_entry_starts_brace(l2[0]);
        lemma_items_shape(l2, r2);
        assert(json_items(l1) + seq![']'] + r1 =~= seq![']'] + r1);
        assert((json_items(l1) + seq![']'] + r1)[0] == ']');
        assert((json_items(l2) + seq![']'] + r2)[0] == json_of_entry(l2[0])[0]);
        assert(false);
    } else if l2.len() == 0 {
        lemma_entry_starts_brace(l1[0]);
        lemma_items_shape(l1, r1);
        assert(json_items(l2) + seq![']'] + r2 =~= seq![']'] + r2);
        assert((json_items(l2) + seq![']'] + r2)[0] == ']');
        assert((json_items(l1) + seq![']'] + r1)[0] == json_of_entry(l1[0])[0]);
        assert(false);
    } else {
        // Both non-empty: match the first entry, then the separators.
        lemma_items_shape(l1, r1);
        lemma_items_shape(l2, r2);
        let t1 = if l1.len() == 1 {
            seq![']'] + r1
        } else {
            ","@ + (json_items(l1.skip(1)) + seq![']'] + r1)
        };
        let t2 = if l2.len() == 1 {
            seq![']'] + r2
        } else {
            ","@ + (json_items(l2.skip(1)) + seq![']'] + r2)
        };
        lemma_entry_prefix(l1[0], l2[0], t1, t2);
        if l1.len() == 1 && l2.len() == 1 {
            lemma_concat_split(seq![']'], r1, seq![']'], r2);
            assert(l1 =~= l2);
        } else if l1.len() == 1 {
            assert(t1[0] == ']');
            assert(t2[0] == ","@[0]);
            assert(","@[0] == ',');
            assert(false);
        } else if l2.len() == 1 {
            assert(t1[0] == ","@[0]);
            assert(t2[0] == ']');
            assert(false);
        } else {
            lemma_concat_split(
                ","@,
                json_items(l1.skip(1)) + seq![']'] + r1,
                ","@,
                json_items(l2.skip(1)) + seq![']'] + r2,
            );
            lemma_items_prefix(l1.skip(1), l2.skip(1), r1, r2);
            assert(l1 =~= seq![l1[0]] + l1.skip(1));
            assert(l2 =~= seq![l2[0]] + l2.skip(1));
        }
    }
}

/// Schema round-trip: the serialized listing determines the entry sequence.
/// Two entry sequences with the same JSON rendering are the same, variant,
/// name, mtime and size alike, in the same order - so any correct decoder of
/// the schema reconstructs exactly the sequence that was serialized.
pub proof fn lemma_json_of_injective(l1: Seq<EntryModel>, l2: Seq<EntryModel>)
    requires
        json_of(l1) == json_of(l2),
    ensures
        l1 == l2,
{
    reveal_strlit("[");
    reveal_strlit("]");
    let empty = Seq::<char>::empty();
    assert(json_of(l1) =~= "["@ + (json_items(l1) + seq![']'] + empty));
    assert(json_of(l2) =~= "["@ + (json_items(l2) + seq![']'] + empty));
    lemma_concat_split(
        "["@,
        json_items(l1) + seq![']'] + empty,
        "["@,
        json_items(l2) + seq![']'] + empty,
    );
    lemma_items_prefix(l1, l2, empty, empty);
}

} // verus!
