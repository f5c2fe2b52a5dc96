//! Manifest codec: a lossless text form of the manifest.
//!
//! The document is a single JSON object with the fields `version`, `root`,
//! `generated`, `files` (an object keyed by relative path), `directories`
//! and `excludes`, in exactly that order, without insignificant whitespace.
//! Numbers are plain decimals; strings escape only `"` and `\`, each with a
//! backslash. The decoder reads what the encoder writes — a manifest
//! survives the round trip unchanged — and refuses a document that does
//! not fit this shape with a parse error.

use crate::errors::IntegrityError;
use crate::manifest::{FileEntry, FileEntryModel, Manifest, ManifestModel};
use vstd::prelude::*;

verus! {

/// Relies on std's String::push: appends exactly one character.
#[verifier::external_body]
fn push_char(s: &mut String, c: char)
    ensures
        final(s)@ == old(s)@.push(c),
{
    s.push(c);
}

// ---------------------------------------------------------------------
// The encoding, as spec functions.
// ---------------------------------------------------------------------
/// One character inside a string: `"` and `\` get a backslash.
pub open spec fn esc_char(c: char) -> Seq<char> {
    if c == '"' || c == '\\' {
        seq!['\\', c]
    } else {
        seq![c]
    }
}

/// The body of an encoded string.
pub open spec fn enc_str_body(s: Seq<char>) -> Seq<char>
    decreases s.len(),
{
    if s.len() == 0 {
        Seq::empty()
    } else {
        esc_char(s[0]) + enc_str_body(s.drop_first())
    }
}

/// An encoded string: the escaped body between double quotes.
pub open spec fn enc_string(s: Seq<char>) -> Seq<char> {
    seq!['"'] + enc_str_body(s) + seq!['"']
}

/// The decimal digit character for `d`.
pub open spec fn dig(d: int) -> char {
    if d == 0 {
        '0'
    } else if d == 1 {
        '1'
    } else if d == 2 {
        '2'
    } else if d == 3 {
        '3'
    } else if d == 4 {
        '4'
    } else if d == 5 {
        '5'
    } else if d == 6 {
        '6'
    } else if d == 7 {
        '7'
    } else if d == 8 {
        '8'
    } else {
        '9'
    }
}

/// A decimal digit character.
pub open spec fn is_digit(c: char) -> bool {
    c == '0' || c == '1' || c == '2' || c == '3' || c == '4' || c == '5' || c == '6' || c == '7'
        || c == '8' || c == '9'
}

/// The value of a decimal digit character.
pub open spec fn dig_val(c: char) -> int {
    if c == '0' {
        0
    } else if c == '1' {
        1
    } else if c == '2' {
        2
    } else if c == '3' {
        3
    } else if c == '4' {
        4
    } else if c == '5' {
        5
    } else if c == '6' {
        6
    } else if c == '7' {
        7
    } else if c == '8' {
        8
    } else {
        9
    }
}

/// A non-negative integer in decimal, most significant digit first, no
/// leading zero.
pub open spec fn enc_nat(n: int) -> Seq<char>
    recommends
        n >= 0,
    decreases n,
{
    if n < 10 {
        seq![dig(n)]
    } else {
        enc_nat(n / 10) + seq![dig(n % 10)]
    }
}

/// One file entry, as the object the `files` map holds under its key.
pub open spec fn enc_entry(e: FileEntryModel) -> Seq<char> {
    "{\"path\":"@ + enc_string(e.path) + ",\"hash\":"@ + enc_string(e.hash) + ",\"size\":"@
        + enc_nat(e.size as int) + ",\"modified\":"@ + enc_nat(e.modified as int) + ",\"mode\":"@
        + enc_nat(e.mode as int) + "}"@
}

/// One `files` item: the path as key, then the entry object.
pub open spec fn enc_file_item(e: FileEntryModel) -> Seq<char> {
    enc_string(e.path) + seq![':'] + enc_entry(e)
}

/// The comma-separated items of the `files` object.
pub open spec fn enc_files_items(files: Seq<FileEntryModel>) -> Seq<char>
    decreases files.len(),
{
    if files.len() == 0 {
        Seq::empty()
    } else if files.len() == 1 {
        enc_file_item(files[0])
    } else {
        enc_file_item(files[0]) + seq![','] + enc_files_items(files.drop_first())
    }
}

/// The `files` object.
pub open spec fn enc_files(files: Seq<FileEntryModel>) -> Seq<char> {
    seq!['{'] + enc_files_items(files) + seq!['}']
}

/// The comma-separated items of a string array.
pub open spec fn enc_strs_items(ss: Seq<Seq<char>>) -> Seq<char>
    decreases ss.len(),
{
    if ss.len() == 0 {
        Seq::empty()
    } else if ss.len() == 1 {
        enc_string(ss[0])
    } else {
        enc_string(ss[0]) + seq![','] + enc_strs_items(ss.drop_first())
    }
}

/// A string array.
pub open spec fn enc_strs(ss: Seq<Seq<char>>) -> Seq<char> {
    seq!['['] + enc_strs_items(ss) + seq![']']
}

/// The tail of an encoded manifest: files, directories, excludes, brace.
pub open spec fn enc_tail(m: ManifestModel) -> Seq<char> {
    ",\"files\":"@ + enc_files(m.files) + ",\"directories\":"@ + enc_strs(m.directories)
        + ",\"excludes\":"@ + enc_strs(m.excludes) + "}"@
}

/// A whole manifest.
pub open spec fn enc_manifest(m: ManifestModel) -> Seq<char> {
    "{\"version\":"@ + enc_nat(m.version as int) + ",\"root\":"@ + enc_string(m.root)
        + ",\"generated\":"@ + enc_nat(m.generated as int) + enc_tail(m)
}

// ---------------------------------------------------------------------
// Unfolding lemmas the encoder's loops lean on.
// ---------------------------------------------------------------------
proof fn lemma_enc_str_body_snoc(s: Seq<char>, c: char)
    ensures
        enc_str_body(s.push(c)) == enc_str_body(s) + esc_char(c),
    decreases s.len(),
{
    assert(s.push(c)[0] == if s.len() == 0 { c } else { s[0] });
    if s.len() == 0 {
        assert(s.push(c).drop_first() =~= Seq::<char>::empty());
        assert(enc_str_body(s.push(c)) == esc_char(c) + enc_str_body(Seq::<char>::empty()));
        assert(enc_str_body(s.push(c)) =~= enc_str_body(s) + esc_char(c));
    } else {
        assert(s.push(c).drop_first() =~= s.drop_first().push(c));
        lemma_enc_str_body_snoc(s.drop_first(), c);
        assert(enc_str_body(s.push(c)) == esc_char(s[0]) + (enc_str_body(s.drop_first())
            + esc_char(c)));
        assert(enc_str_body(s.push(c)) =~= enc_str_body(s) + esc_char(c));
    }
}

proof fn lemma_enc_files_items_snoc(files: Seq<FileEntryModel>, e: FileEntryModel)
    requires
        files.len() >= 1,
    ensures
        enc_files_items(files.push(e)) == enc_files_items(files) + seq![','] + enc_file_item(e),
    decreases files.len(),
{
    assert(files.push(e)[0] == files[0]);
    if files.len() == 1 {
        assert(files.push(e).drop_first() =~= seq![e]);
        assert(enc_files_items(seq![e]) == enc_file_item(e));
        assert(enc_files_items(files.push(e)) == enc_file_item(files[0]) + seq![',']
            + enc_files_items(seq![e]));
        assert(enc_files_items(files.push(e)) =~= enc_files_items(files) + seq![',']
            + enc_file_item(e));
    } else {
        assert(files.push(e).drop_first() =~= files.drop_first().push(e));
        lemma_enc_files_items_snoc(files.drop_first(), e);
        assert(enc_files_items(files.push(e)) == enc_file_item(files[0]) + seq![',']
            + (enc_files_items(files.drop_first()) + seq![','] + enc_file_item(e)));
        assert(enc_files_items(files.push(e)) =~= enc_files_items(files) + seq![',']
            + enc_file_item(e));
    }
}

proof fn lemma_enc_strs_items_snoc(ss: Seq<Seq<char>>, s: Seq<char>)
    requires
        ss.len() >= 1,
    ensures
        enc_strs_items(ss.push(s)) == enc_strs_items(ss) + seq![','] + enc_string(s),
    decreases ss.len(),
{
    assert(ss.push(s)[0] == ss[0]);
    if ss.len() == 1 {
        assert(ss.push(s).drop_first() =~= seq![s]);
        assert(enc_strs_items(seq![s]) == enc_string(s));
        assert(enc_strs_items(ss.push(s)) == enc_string(ss[0]) + seq![','] + enc_strs_items(
            seq![s],
        ));
        assert(enc_strs_items(ss.push(s)) =~= enc_strs_items(ss) + seq![','] + enc_string(s));
    } else {
        assert(ss.push(s).drop_first() =~= ss.drop_first().push(s));
        lemma_enc_strs_items_snoc(ss.drop_first(), s);
        assert(enc_strs_items(ss.push(s)) == enc_string(ss[0]) + seq![','] + (enc_strs_items(
            ss.drop_first(),
        ) + seq![','] + enc_string(s)));
        assert(enc_strs_items(ss.push(s)) =~= enc_strs_items(ss) + seq![','] + enc_string(s));
    }
}

// ---------------------------------------------------------------------
// The encoder.
// ---------------------------------------------------------------------
fn write_string(out: &mut String, s: &str)
    ensures
        final(out)@ == old(out)@ + enc_string(s@),
{
    push_char(out, '"');
    let n = s.unicode_len();
    let mut i: usize = 0;
    while i < n
        invariant
            i <= n,
            n == s@.len(),
            out@ == old(out)@ + seq!['"'] + enc_str_body(s@.subrange(0, i as int)),
        decreases n - i,
    {
        let c = s.get_char(i);
        if c == '"' || c == '\\' {
            push_char(out, '\\');
            push_char(out, c);
        } else {
            push_char(out, c);
        }
        proof {
            assert(s@.subrange(0, i + 1 as int) =~= s@.subrange(0, i as int).push(s@[i as int]));
            lemma_enc_str_body_snoc(s@.subrange(0, i as int), s@[i as int]);
            assert(out@ =~= old(out)@ + seq!['"'] + enc_str_body(s@.subrange(0, i + 1 as int)));
        }
        i = i + 1;
    }
    push_char(out, '"');
    proof {
        assert(s@.subrange(0, n as int) =~= s@);
        assert(out@ =~= old(out)@ + enc_string(s@));
    }
}

/// The decimal digit character for `d`, executable.
fn digit_char(d: u64) -> (c: char)
    requires
        d < 10,
    ensures
        c == dig(d as int),
{
    if d == 0 {
        '0'
    } else if d == 1 {
        '1'
    } else if d == 2 {
        '2'
    } else if d == 3 {
        '3'
    } else if d == 4 {
        '4'
    } else if d == 5 {
        '5'
    } else if d == 6 {
        '6'
    } else if d == 7 {
        '7'
    } else if d == 8 {
        '8'
    } else {
        '9'
    }
}

fn write_nat(out: &mut String, n: u64)
    ensures
        final(out)@ == old(out)@ + enc_nat(n as int),
    decreases n,
{
    if n < 10 {
        push_char(out, digit_char(n));
        proof {
            assert(out@ =~= old(out)@ + enc_nat(n as int));
        }
    } else {
        write_nat(out, n / 10);
        push_char(out, digit_char(n % 10));
        proof {
            assert(out@ =~= old(out)@ + enc_nat(n as int));
        }
    }
}

fn write_entry(out: &mut String, e: &FileEntry)
    ensures
        final(out)@ == old(out)@ + enc_entry(e@),
{
    out.append("{\"path\":");
    write_string(out, e.path.as_str());
    out.append(",\"hash\":");
    write_string(out, e.hash.as_str());
    out.append(",\"size\":");
    write_nat(out, e.size);
    out.append(",\"modified\":");
    write_nat(out, e.modified);
    out.append(",\"mode\":");
    write_nat(out, e.mode as u64);
    out.append("}");
    proof {
        assert(out@ =~= old(out)@ + enc_entry(e@));
    }
}

fn write_file_item(out: &mut String, e: &FileEntry)
    ensures
        final(out)@ == old(out)@ + enc_file_item(e@),
{
    write_string(out, e.path.as_str());
    push_char(out, ':');
    write_entry(out, e);
    proof {
        assert(out@ =~= old(out)@ + enc_file_item(e@));
    }
}

fn write_files(out: &mut String, files: &Vec<FileEntry>)
    ensures
        final(out)@ == old(out)@ + enc_files(files.deep_view()),
{
    push_char(out, '{');
    let n = files.len();
    let mut i: usize = 0;
    while i < n
        invariant
            i <= n,
            n == files@.len(),
            files.deep_view().len() == n,
            out@ == old(out)@ + seq!['{'] + enc_files_items(files.deep_view().subrange(0, i as int)),
        decreases n - i,
    {
        let ghost dv = files.deep_view();
        if i > 0 {
            push_char(out, ',');
        }
        write_file_item(out, &files[i]);
        proof {
            assert(dv.subrange(0, i + 1 as int) =~= dv.subrange(0, i as int).push(dv[i as int]));
            if i == 0 {
                assert(dv.subrange(0, 1) =~= seq![dv[0]]);
                assert(enc_files_items(seq![dv[0]]) == enc_file_item(dv[0]));
            } else {
                lemma_enc_files_items_snoc(dv.subrange(0, i as int), dv[i as int]);
            }
            assert(out@ =~= old(out)@ + seq!['{'] + enc_files_items(dv.subrange(0, i + 1 as int)));
        }
        i = i + 1;
    }
    push_char(out, '}');
    proof {
        assert(files.deep_view().subrange(0, n as int) =~= files.deep_view());
        assert(out@ =~= old(out)@ + enc_files(files.deep_view()));
    }
}

fn write_strs(out: &mut String, ss: &Vec<String>)
    ensures
        final(out)@ == old(out)@ + enc_strs(ss.deep_view()),
{
    push_char(out, '[');
    let n = ss.len();
    let mut i: usize = 0;
    while i < n
        invariant
            i <= n,
            n == ss@.len(),
            ss.deep_view().len() == n,
            out@ == old(out)@ + seq!['['] + enc_strs_items(ss.deep_view().subrange(0, i as int)),
        decreases n - i,
    {
        let ghost dv = ss.deep_view();
        if i > 0 {
            push_char(out, ',');
        }
        write_string(out, ss[i].as_str());
        proof {
            assert(dv.subrange(0, i + 1 as int) =~= dv.subrange(0, i as int).push(dv[i as int]));
            if i == 0 {
                assert(dv.subrange(0, 1) =~= seq![dv[0]]);
                assert(enc_strs_items(seq![dv[0]]) == enc_string(dv[0]));
            } else {
                lemma_enc_strs_items_snoc(dv.subrange(0, i as int), dv[i as int]);
            }
            assert(out@ =~= old(out)@ + seq!['['] + enc_strs_items(dv.subrange(0, i + 1 as int)));
        }
        i = i + 1;
    }
    push_char(out, ']');
    proof {
        assert(ss.deep_view().subrange(0, n as int) =~= ss.deep_view());
        assert(out@ =~= old(out)@ + enc_strs(ss.deep_view()));
    }
}

/// Encode a manifest as its canonical document.
pub fn encode_manifest(manifest: &Manifest) -> (r: String)
    ensures
        r@ == enc_manifest(manifest@),
{
    let mut out = String::new();
    out.append("{\"version\":");
    write_nat(&mut out, manifest.version as u64);
    out.append(",\"root\":");
    write_string(&mut out, manifest.root.as_str());
    out.append(",\"generated\":");
    write_nat(&mut out, manifest.generated);
    out.append(",\"files\":");
    write_files(&mut out, &manifest.files);
    out.append(",\"directories\":");
    write_strs(&mut out, &manifest.directories);
    out.append(",\"excludes\":");
    write_strs(&mut out, &manifest.excludes);
    out.append("}");
    proof {
        assert(out@ =~= enc_manifest(manifest@));
    }
    out
}


// ---------------------------------------------------------------------
// The decoding, as spec functions: a recursive-descent parser over the
// character sequence, position-indexed. Each returns the parsed value and
// the position after it, or `None` where the document is malformed.
// ---------------------------------------------------------------------
/// Expect the exact characters of `lit` at `i`.
pub open spec fn p_lit(s: Seq<char>, i: int, lit: Seq<char>) -> Option<int> {
    if 0 <= i && i + lit.len() <= s.len() && s.subrange(i, i + lit.len()) == lit {
        Some(i + lit.len())
    } else {
        None
    }
}

/// The body of a string, after the opening quote, up to and including the
/// closing quote; `acc` carries what was read so far.
pub open spec fn p_str_body(s: Seq<char>, i: int, acc: Seq<char>) -> Option<(Seq<char>, int)>
    decreases s.len() - i,
{
    if i < 0 || i >= s.len() {
        None
    } else if s[i] == '"' {
        Some((acc, i + 1))
    } else if s[i] == '\\' {
        if i + 1 < s.len() && (s[i + 1] == '"' || s[i + 1] == '\\') {
            p_str_body(s, i + 2, acc.push(s[i + 1]))
        } else {
            None
        }
    } else {
        p_str_body(s, i + 1, acc.push(s[i]))
    }
}

/// A quoted string at `i`.
pub open spec fn p_string(s: Seq<char>, i: int) -> Option<(Seq<char>, int)> {
    if 0 <= i && i < s.len() && s[i] == '"' {
        p_str_body(s, i + 1, Seq::empty())
    } else {
        None
    }
}

/// A run of decimal digits folded onto `acc`; stops at the first
/// non-digit. Refuses a value that would not fit the widest field.
pub open spec fn p_num(s: Seq<char>, i: int, acc: int) -> Option<(int, int)>
    decreases s.len() - i,
{
    if 0 <= i && i < s.len() && is_digit(s[i]) {
        if acc * 10 + dig_val(s[i]) > u64::MAX as int {
            None
        } else {
            p_num(s, i + 1, acc * 10 + dig_val(s[i]))
        }
    } else {
        Some((acc, i))
    }
}

/// A non-empty run of decimal digits at `i`.
pub open spec fn p_nat(s: Seq<char>, i: int) -> Option<(int, int)> {
    match p_num(s, i, 0) {
        Some((v, j)) => if j > i {
            Some((v, j))
        } else {
            None
        },
        None => None,
    }
}

/// One file-entry object at `i`.
pub open spec fn p_entry(s: Seq<char>, i: int) -> Option<(FileEntryModel, int)> {
    match p_lit(s, i, "{\"path\":"@) {
        None => None,
        Some(i1) => match p_string(s, i1) {
            None => None,
            Some((path, i2)) => match p_lit(s, i2, ",\"hash\":"@) {
                None => None,
                Some(i3) => match p_string(s, i3) {
                    None => None,
                    Some((hash, i4)) => match p_lit(s, i4, ",\"size\":"@) {
                        None => None,
                        Some(i5) => match p_nat(s, i5) {
                            None => None,
                            Some((size, i6)) => match p_lit(s, i6, ",\"modified\":"@) {
                                None => None,
                                Some(i7) => match p_nat(s, i7) {
                                    None => None,
                                    Some((modified, i8)) => match p_lit(s, i8, ",\"mode\":"@) {
                                        None => None,
                                        Some(i9) => match p_nat(s, i9) {
                                            None => None,
                                            Some((mode, i10)) => if mode > u32::MAX as int {
                                                None
                                            } else {
                                                match p_lit(s, i10, "}"@) {
                                                    None => None,
                                                    Some(i11) => Some(
                                                        (
                                                            FileEntryModel {
                                                                path: path,
                                                                hash: hash,
                                                                size: size as u64,
                                                                modified: modified as u64,
                                                                mode: mode as u32,
                                                            },
                                                            i11,
                                                        ),
                                                    ),
                                                }
                                            },
                                        },
                                    },
                                },
                            },
                        },
                    },
                },
            },
        },
    }
}

/// The items of a non-empty `files` object, key by key. The key must equal
/// the entry's own `path` field. Stops before the closing brace.
pub open spec fn p_files_items(
    s: Seq<char>,
    i: int,
    acc: Seq<FileEntryModel>,
    fuel: nat,
) -> Option<(Seq<FileEntryModel>, int)>
    decreases fuel,
{
    if fuel == 0 {
        None
    } else {
        match p_string(s, i) {
            None => None,
            Some((key, i1)) => match p_lit(s, i1, ":"@) {
                None => None,
                Some(i2) => match p_entry(s, i2) {
                    None => None,
                    Some((e, i3)) => if e.path != key {
                        None
                    } else if 0 <= i3 && i3 < s.len() && s[i3] == ',' {
                        p_files_items(s, i3 + 1, acc.push(e), (fuel - 1) as nat)
                    } else {
                        Some((acc.push(e), i3))
                    },
                },
            },
        }
    }
}

/// A whole `files` object at `i`.
pub open spec fn p_files(s: Seq<char>, i: int, fuel: nat) -> Option<(Seq<FileEntryModel>, int)> {
    match p_lit(s, i, "{"@) {
        None => None,
        Some(i1) => if 0 <= i1 && i1 < s.len() && s[i1] == '}' {
            Some((Seq::empty(), i1 + 1))
        } else {
            match p_files_items(s, i1, Seq::empty(), fuel) {
                None => None,
                Some((fs, i2)) => match p_lit(s, i2, "}"@) {
                    None => None,
                    Some(i3) => Some((fs, i3)),
                },
            }
        },
    }
}

/// The items of a non-empty string array. Stops before the closing bracket.
pub open spec fn p_strs_items(s: Seq<char>, i: int, acc: Seq<Seq<char>>, fuel: nat) -> Option<
    (Seq<Seq<char>>, int),
>
    decreases fuel,
{
    if fuel == 0 {
        None
    } else {
        match p_string(s, i) {
            None => None,
            Some((x, i1)) => if 0 <= i1 && i1 < s.len() && s[i1] == ',' {
                p_strs_items(s, i1 + 1, acc.push(x), (fuel - 1) as nat)
            } else {
                Some((acc.push(x), i1))
            },
        }
    }
}

/// A whole string array at `i`.
pub open spec fn p_strs(s: Seq<char>, i: int, fuel: nat) -> Option<(Seq<Seq<char>>, int)> {
    match p_lit(s, i, "["@) {
        None => None,
        Some(i1) => if 0 <= i1 && i1 < s.len() && s[i1] == ']' {
            Some((Seq::empty(), i1 + 1))
        } else {
            match p_strs_items(s, i1, Seq::empty(), fuel) {
                None => None,
                Some((ss, i2)) => match p_lit(s, i2, "]"@) {
                    None => None,
                    Some(i3) => Some((ss, i3)),
                },
            }
        },
    }
}

/// A whole manifest document starting at `i`.
pub open spec fn p_manifest(s: Seq<char>, i: int) -> Option<(ManifestModel, int)> {
    match p_lit(s, i, "{\"version\":"@) {
        None => None,
        Some(i1) => match p_nat(s, i1) {
            None => None,
            Some((version, i2)) => if version > u32::MAX as int {
                None
            } else {
                match p_lit(s, i2, ",\"root\":"@) {
                    None => None,
                    Some(i3) => match p_string(s, i3) {
                        None => None,
                        Some((root, i4)) => match p_lit(s, i4, ",\"generated\":"@) {
                            None => None,
                            Some(i5) => match p_nat(s, i5) {
                                None => None,
                                Some((generated, i6)) => match p_tail(s, i6, version, root, generated) {
                                    None => None,
                                    Some(r) => Some(r),
                                },
                            },
                        },
                    },
                }
            },
        },
    }
}

/// The tail of a manifest document: files, directories, excludes, and the
/// closing brace.
pub open spec fn p_tail(s: Seq<char>, i6: int, version: int, root: Seq<char>, generated: int) -> Option<(ManifestModel, int)> {
    match p_lit(s, i6, ",\"files\":"@) {
        None => None,
        Some(i7) => match p_files(s, i7, s.len() as nat) {
            None => None,
            Some((files, i8)) => match p_lit(s, i8, ",\"directories\":"@) {
                None => None,
                Some(i9) => match p_strs(s, i9, s.len() as nat) {
                    None => None,
                    Some((directories, i10)) => match p_lit(s, i10, ",\"excludes\":"@) {
                        None => None,
                        Some(i11) => match p_strs(s, i11, s.len() as nat) {
                            None => None,
                            Some((excludes, i12)) => match p_lit(s, i12, "}"@) {
                                None => None,
                                Some(i13) => Some((ManifestModel { version: version as u32, root: root, generated: generated as u64, files: files, directories: directories, excludes: excludes }, i13)),
                            },
                        },
                    },
                },
            },
        },
    }
}

/// What a document means: the manifest it encodes, when the whole input is
/// exactly one well-formed document.
pub open spec fn decode_spec(s: Seq<char>) -> Option<ManifestModel> {
    match p_manifest(s, 0) {
        Some((m, j)) => if j == s.len() {
            Some(m)
        } else {
            None
        },
        None => None,
    }
}


// ---------------------------------------------------------------------
// The decoder: executable mirrors of the spec parsers.
// ---------------------------------------------------------------------
/// A decimal digit character, executable.
fn is_digit_exec(c: char) -> (r: bool)
    ensures
        r == is_digit(c),
{
    c == '0' || c == '1' || c == '2' || c == '3' || c == '4' || c == '5' || c == '6' || c == '7'
        || c == '8' || c == '9'
}

/// The value of a decimal digit character, executable.
fn dig_val_exec(c: char) -> (r: u64)
    ensures
        r as int == dig_val(c),
        r < 10,
{
    if c == '0' {
        0
    } else if c == '1' {
        1
    } else if c == '2' {
        2
    } else if c == '3' {
        3
    } else if c == '4' {
        4
    } else if c == '5' {
        5
    } else if c == '6' {
        6
    } else if c == '7' {
        7
    } else if c == '8' {
        8
    } else {
        9
    }
}

/// The characters of a string, one by one.
fn str_to_chars(s: &str) -> (v: Vec<char>)
    ensures
        v@ == s@,
{
    let n = s.unicode_len();
    let mut v: Vec<char> = Vec::new();
    let mut i: usize = 0;
    while i < n
        invariant
            i <= n,
            n == s@.len(),
            v@ == s@.subrange(0, i as int),
        decreases n - i,
    {
        v.push(s.get_char(i));
        proof {
            assert(v@ =~= s@.subrange(0, i + 1 as int));
        }
        i = i + 1;
    }
    proof {
        assert(s@.subrange(0, n as int) =~= s@);
    }
    v
}

fn pk_lit(v: &Vec<char>, i: usize, lit: &str) -> (r: Option<usize>)
    ensures
        (r is Some) == (p_lit(v@, i as int, lit@) is Some),
        r is Some ==> r.unwrap() as int == p_lit(v@, i as int, lit@).unwrap(),
{
    let m = lit.unicode_len();
    let n = v.len();
    if i > n || m > n - i {
        return None;
    }
    let mut k: usize = 0;
    while k < m
        invariant
            k <= m,
            m == lit@.len(),
            n == v@.len(),
            i + m <= n,
            forall|q: int| 0 <= q < k ==> v@[i + q] == lit@[q],
        decreases m - k,
    {
        if v[i + k] != lit.get_char(k) {
            proof {
                assert(v@.subrange(i as int, i + m) [k as int] != lit@[k as int]);
            }
            return None;
        }
        k = k + 1;
    }
    proof {
        assert(v@.subrange(i as int, i + m) =~= lit@);
    }
    Some(i + m)
}

fn pk_str_body(v: &Vec<char>, i: usize, acc: String) -> (r: Option<(String, usize)>)
    ensures
        (r is Some) == (p_str_body(v@, i as int, acc@) is Some),
        r is Some ==> r.unwrap().0@ == p_str_body(v@, i as int, acc@).unwrap().0 && r.unwrap().1
            as int == p_str_body(v@, i as int, acc@).unwrap().1,
    decreases v@.len() - i,
{
    if i >= v.len() {
        return None;
    }
    let c = v[i];
    if c == '"' {
        Some((acc, i + 1))
    } else if c == '\\' {
        if i + 1 < v.len() && (v[i + 1] == '"' || v[i + 1] == '\\') {
            let mut acc2 = acc;
            push_char(&mut acc2, v[i + 1]);
            pk_str_body(v, i + 2, acc2)
        } else {
            None
        }
    } else {
        let mut acc2 = acc;
        push_char(&mut acc2, c);
        pk_str_body(v, i + 1, acc2)
    }
}

fn pk_string(v: &Vec<char>, i: usize) -> (r: Option<(String, usize)>)
    ensures
        (r is Some) == (p_string(v@, i as int) is Some),
        r is Some ==> r.unwrap().0@ == p_string(v@, i as int).unwrap().0 && r.unwrap().1 as int
            == p_string(v@, i as int).unwrap().1,
{
    if i < v.len() && v[i] == '"' {
        pk_str_body(v, i + 1, String::new())
    } else {
        None
    }
}

fn pk_num(v: &Vec<char>, i: usize, acc: u64) -> (r: Option<(u64, usize)>)
    ensures
        (r is Some) == (p_num(v@, i as int, acc as int) is Some),
        r is Some ==> r.unwrap().0 as int == p_num(v@, i as int, acc as int).unwrap().0
            && r.unwrap().1 as int == p_num(v@, i as int, acc as int).unwrap().1,
    decreases v@.len() - i,
{
    if i < v.len() && is_digit_exec(v[i]) {
        let d = dig_val_exec(v[i]);
        let a2: u128 = (acc as u128) * 10 + (d as u128);
        proof {
            assert(a2 == acc as int * 10 + d as int) by (nonlinear_arith)
                requires
                    a2 == (acc as u128) * 10 + (d as u128),
                    d < 10,
            ;
        }
        if a2 > u64::MAX as u128 {
            None
        } else {
            pk_num(v, i + 1, a2 as u64)
        }
    } else {
        Some((acc, i))
    }
}

fn pk_nat(v: &Vec<char>, i: usize) -> (r: Option<(u64, usize)>)
    ensures
        (r is Some) == (p_nat(v@, i as int) is Some),
        r is Some ==> r.unwrap().0 as int == p_nat(v@, i as int).unwrap().0 && r.unwrap().1 as int
            == p_nat(v@, i as int).unwrap().1,
{
    match pk_num(v, i, 0) {
        Some((val, j)) => {
            if j > i {
                Some((val, j))
            } else {
                None
            }
        },
        None => None,
    }
}

fn pk_entry(v: &Vec<char>, i: usize) -> (r: Option<(FileEntry, usize)>)
    ensures
        (r is Some) == (p_entry(v@, i as int) is Some),
        r is Some ==> r.unwrap().0@ == p_entry(v@, i as int).unwrap().0 && r.unwrap().1 as int
            == p_entry(v@, i as int).unwrap().1,
{
    let i1 = match pk_lit(v, i, "{\"path\":") {
        Some(x) => x,
        None => {
            return None;
        },
    };
    let (path, i2) = match pk_string(v, i1) {
        Some(x) => x,
        None => {
            return None;
        },
    };
    let i3 = match pk_lit(v, i2, ",\"hash\":") {
        Some(x) => x,
        None => {
            return None;
        },
    };
    let (hash, i4) = match pk_string(v, i3) {
        Some(x) => x,
        None => {
            return None;
        },
    };
    let i5 = match pk_lit(v, i4, ",\"size\":") {
        Some(x) => x,
        None => {
            return None;
        },
    };
    let (size, i6) = match pk_nat(v, i5) {
        Some(x) => x,
        None => {
            return None;
        },
    };
    let i7 = match pk_lit(v, i6, ",\"modified\":") {
        Some(x) => x,
        None => {
            return None;
        },
    };
    let (modified, i8) = match pk_nat(v, i7) {
        Some(x) => x,
        None => {
            return None;
        },
    };
    let i9 = match pk_lit(v, i8, ",\"mode\":") {
        Some(x) => x,
        None => {
            return None;
        },
    };
    let (mode, i10) = match pk_nat(v, i9) {
        Some(x) => x,
        None => {
            return None;
        },
    };
    if mode > u32::MAX as u64 {
        return None;
    }
    let i11 = match pk_lit(v, i10, "}") {
        Some(x) => x,
        None => {
            return None;
        },
    };
    Some(
        (
            FileEntry {
                path: path,
                hash: hash,
                size: size,
                modified: modified,
                mode: mode as u32,
            },
            i11,
        ),
    )
}

fn pk_files_items(v: &Vec<char>, i: usize, acc: Vec<FileEntry>, fuel: usize) -> (r: Option<
    (Vec<FileEntry>, usize),
>)
    ensures
        (r is Some) == (p_files_items(v@, i as int, acc.deep_view(), fuel as nat) is Some),
        r is Some ==> r.unwrap().0.deep_view() == p_files_items(
            v@,
            i as int,
            acc.deep_view(),
            fuel as nat,
        ).unwrap().0 && r.unwrap().1 as int == p_files_items(
            v@,
            i as int,
            acc.deep_view(),
            fuel as nat,
        ).unwrap().1,
    decreases fuel,
{
    if fuel == 0 {
        return None;
    }
    let (key, i1) = match pk_string(v, i) {
        Some(x) => x,
        None => {
            return None;
        },
    };
    let i2 = match pk_lit(v, i1, ":") {
        Some(x) => x,
        None => {
            return None;
        },
    };
    let (e, i3) = match pk_entry(v, i2) {
        Some(x) => x,
        None => {
            return None;
        },
    };
    if !crate::pattern::str_equal(e.path.as_str(), key.as_str()) {
        return None;
    }
    let ghost old_acc = acc.deep_view();
    let ghost em = e@;
    let mut acc2 = acc;
    acc2.push(e);
    proof {
        assert(acc2.deep_view() =~~= old_acc.push(em));
    }
    if i3 < v.len() && v[i3] == ',' {
        pk_files_items(v, i3 + 1, acc2, fuel - 1)
    } else {
        Some((acc2, i3))
    }
}

fn pk_files(v: &Vec<char>, i: usize, fuel: usize) -> (r: Option<(Vec<FileEntry>, usize)>)
    ensures
        (r is Some) == (p_files(v@, i as int, fuel as nat) is Some),
        r is Some ==> r.unwrap().0.deep_view() == p_files(v@, i as int, fuel as nat).unwrap().0
            && r.unwrap().1 as int == p_files(v@, i as int, fuel as nat).unwrap().1,
{
    let i1 = match pk_lit(v, i, "{") {
        Some(x) => x,
        None => {
            return None;
        },
    };
    if i1 < v.len() && v[i1] == '}' {
        let empty: Vec<FileEntry> = Vec::new();
        proof {
            assert(empty.deep_view() =~~= Seq::<FileEntryModel>::empty());
        }
        return Some((empty, i1 + 1));
    }
    let empty: Vec<FileEntry> = Vec::new();
    proof {
        assert(empty.deep_view() =~~= Seq::<FileEntryModel>::empty());
    }
    let (fs, i2) = match pk_files_items(v, i1, empty, fuel) {
        Some(x) => x,
        None => {
            return None;
        },
    };
    let i3 = match pk_lit(v, i2, "}") {
        Some(x) => x,
        None => {
            return None;
        },
    };
    Some((fs, i3))
}

fn pk_strs_items(v: &Vec<char>, i: usize, acc: Vec<String>, fuel: usize) -> (r: Option<
    (Vec<String>, usize),
>)
    ensures
        (r is Some) == (p_strs_items(v@, i as int, acc.deep_view(), fuel as nat) is Some),
        r is Some ==> r.unwrap().0.deep_view() == p_strs_items(
            v@,
            i as int,
            acc.deep_view(),
            fuel as nat,
        ).unwrap().0 && r.unwrap().1 as int == p_strs_items(
            v@,
            i as int,
            acc.deep_view(),
            fuel as nat,
        ).unwrap().1,
    decreases fuel,
{
    if fuel == 0 {
        return None;
    }
    let (x, i1) = match pk_string(v, i) {
        Some(x) => x,
        None => {
            return None;
        },
    };
    let ghost old_acc = acc.deep_view();
    let ghost xm = x@;
    let mut acc2 = acc;
    acc2.push(x);
    proof {
        assert(acc2.deep_view() =~~= old_acc.push(xm));
    }
    if i1 < v.len() && v[i1] == ',' {
        pk_strs_items(v, i1 + 1, acc2, fuel - 1)
    } else {
        Some((acc2, i1))
    }
}

fn pk_strs(v: &Vec<char>, i: usize, fuel: usize) -> (r: Option<(Vec<String>, usize)>)
    ensures
        (r is Some) == (p_strs(v@, i as int, fuel as nat) is Some),
        r is Some ==> r.unwrap().0.deep_view() == p_strs(v@, i as int, fuel as nat).unwrap().0
            && r.unwrap().1 as int == p_strs(v@, i as int, fuel as nat).unwrap().1,
{
    let i1 = match pk_lit(v, i, "[") {
        Some(x) => x,
        None => {
            return None;
        },
    };
    if i1 < v.len() && v[i1] == ']' {
        let empty: Vec<String> = Vec::new();
        proof {
            assert(empty.deep_view() =~~= Seq::<Seq<char>>::empty());
        }
        return Some((empty, i1 + 1));
    }
    let empty: Vec<String> = Vec::new();
    proof {
        assert(empty.deep_view() =~~= Seq::<Seq<char>>::empty());
    }
    let (ss, i2) = match pk_strs_items(v, i1, empty, fuel) {
        Some(x) => x,
        None => {
            return None;
        },
    };
    let i3 = match pk_lit(v, i2, "]") {
        Some(x) => x,
        None => {
            return None;
        },
    };
    Some((ss, i3))
}

fn pk_manifest(v: &Vec<char>, i: usize) -> (r: Option<(Manifest, usize)>)
    ensures
        (r is Some) == (p_manifest(v@, i as int) is Some),
        r is Some ==> r.unwrap().0@ == p_manifest(v@, i as int).unwrap().0 && r.unwrap().1 as int
            == p_manifest(v@, i as int).unwrap().1,
{
    let i1 = match pk_lit(v, i, "{\"version\":") {
        Some(x) => x,
        None => {
            return None;
        },
    };
    let (version, i2) = match pk_nat(v, i1) {
        Some(x) => x,
        None => {
            return None;
        },
    };
    if version > u32::MAX as u64 {
        return None;
    }
    let i3 = match pk_lit(v, i2, ",\"root\":") {
        Some(x) => x,
        None => {
            return None;
        },
    };
    let (root, i4) = match pk_string(v, i3) {
        Some(x) => x,
        None => {
            return None;
        },
    };
    let i5 = match pk_lit(v, i4, ",\"generated\":") {
        Some(x) => x,
        None => {
            return None;
        },
    };
    let (generated, i6) = match pk_nat(v, i5) {
        Some(x) => x,
        None => {
            return None;
        },
    };
    let i7 = match pk_lit(v, i6, ",\"files\":") {
        Some(x) => x,
        None => {
            return None;
        },
    };
    let (files, i8) = match pk_files(v, i7, v.len()) {
        Some(x) => x,
        None => {
            return None;
        },
    };
    let i9 = match pk_lit(v, i8, ",\"directories\":") {
        Some(x) => x,
        None => {
            return None;
        },
    };
    let (directories, i10) = match pk_strs(v, i9, v.len()) {
        Some(x) => x,
        None => {
            return None;
        },
    };
    let i11 = match pk_lit(v, i10, ",\"excludes\":") {
        Some(x) => x,
        None => {
            return None;
        },
    };
    let (excludes, i12) = match pk_strs(v, i11, v.len()) {
        Some(x) => x,
        None => {
            return None;
        },
    };
    let i13 = match pk_lit(v, i12, "}") {
        Some(x) => x,
        None => {
            return None;
        },
    };
    Some(
        (
            Manifest {
                version: version as u32,
                root: root,
                generated: generated,
                files: files,
                directories: directories,
                excludes: excludes,
            },
            i13,
        ),
    )
}

/// Decode a manifest document.
///
/// Returns the manifest the document encodes; a document that is not
/// exactly one well-formed manifest is refused with a parse error.
pub fn decode_manifest(s: &str) -> (r: Result<Manifest, IntegrityError>)
    ensures
        decode_spec(s@) is Some ==> (r matches Ok(m) && m@ == decode_spec(s@).unwrap()),
        decode_spec(s@) is None ==> (r matches Err(e) && e matches IntegrityError::ParseError(msg)
            && msg@ == "malformed manifest document"@),
{
    let v = str_to_chars(s);
    match pk_manifest(&v, 0) {
        Some((m, j)) => {
            if j == v.len() {
                Ok(m)
            } else {
                Err(IntegrityError::ParseError(String::from_str("malformed manifest document")))
            }
        },
        None => Err(IntegrityError::ParseError(String::from_str("malformed manifest document"))),
    }
}


// ---------------------------------------------------------------------
// Round trip: the decoder recovers exactly what the encoder wrote.
// ---------------------------------------------------------------------
proof fn lemma_peel(s: Seq<char>, i: int, a: Seq<char>, b: Seq<char>)
    requires
        0 <= i,
        i + a.len() + b.len() <= s.len(),
        s.subrange(i, i + a.len() + b.len()) == a + b,
    ensures
        s.subrange(i, i + a.len()) == a,
        s.subrange(i + a.len(), i + a.len() + b.len()) == b,
{
    assert(s.subrange(i, i + a.len()) =~= a) by {
        assert forall|q: int| 0 <= q < a.len() implies s.subrange(i, i + a.len())[q] == a[q] by {
            assert(s.subrange(i, i + a.len() + b.len())[q] == (a + b)[q]);
        }
    }
    assert(s.subrange(i + a.len(), i + a.len() + b.len()) =~= b) by {
        assert forall|q: int|
            0 <= q < b.len() implies s.subrange(i + a.len(), i + a.len() + b.len())[q] == b[q] by {
            assert(s.subrange(i, i + a.len() + b.len())[a.len() + q] == (a + b)[a.len() + q]);
            assert(s.subrange(i, i + a.len() + b.len())[a.len() + q] == s[i + a.len() + q]);
            assert((a + b)[a.len() + q] == b[q]);
            assert(s.subrange(i + a.len(), i + a.len() + b.len())[q] == s[i + a.len() + q]);
        }
    }
}

proof fn lemma_char_at(s: Seq<char>, i: int, a: Seq<char>, q: int)
    requires
        0 <= i,
        i + a.len() <= s.len(),
        s.subrange(i, i + a.len()) == a,
        0 <= q < a.len(),
    ensures
        s[i + q] == a[q],
{
    assert(s.subrange(i, i + a.len())[q] == a[q]);
}

/// Ten to the `k`.
spec fn pow10(k: nat) -> int
    decreases k,
{
    if k == 0 {
        1
    } else {
        10 * pow10((k - 1) as nat)
    }
}

/// Every character is a decimal digit.
spec fn all_digits(ds: Seq<char>) -> bool {
    forall|q: int| 0 <= q < ds.len() ==> is_digit(#[trigger] ds[q])
}

/// The value of a digit string, most significant first.
spec fn val_digits(ds: Seq<char>) -> int
    decreases ds.len(),
{
    if ds.len() == 0 {
        0
    } else {
        dig_val(ds[0]) * pow10((ds.len() - 1) as nat) + val_digits(ds.drop_first())
    }
}

proof fn lemma_pow10_pos(k: nat)
    ensures
        pow10(k) >= 1,
    decreases k,
{
    if k > 0 {
        lemma_pow10_pos((k - 1) as nat);
    }
}

proof fn lemma_val_nonneg(ds: Seq<char>)
    ensures
        val_digits(ds) >= 0,
    decreases ds.len(),
{
    if ds.len() > 0 {
        lemma_val_nonneg(ds.drop_first());
        lemma_pow10_pos((ds.len() - 1) as nat);
        assert(dig_val(ds[0]) * pow10((ds.len() - 1) as nat) >= 0) by (nonlinear_arith)
            requires
                dig_val(ds[0]) >= 0,
                pow10((ds.len() - 1) as nat) >= 1,
        ;
    }
}

proof fn lemma_val_snoc(ds: Seq<char>, c: char)
    ensures
        val_digits(ds.push(c)) == val_digits(ds) * 10 + dig_val(c),
    decreases ds.len(),
{
    if ds.len() == 0 {
        assert(ds.push(c)[0] == c);
        assert(ds.push(c).drop_first() =~= Seq::<char>::empty());
        assert(val_digits(Seq::<char>::empty()) == 0);
    } else {
        assert(ds.push(c)[0] == ds[0]);
        assert(ds.push(c).drop_first() =~= ds.drop_first().push(c));
        lemma_val_snoc(ds.drop_first(), c);
        let d0 = dig_val(ds[0]);
        let k = (ds.len() - 1) as nat;
        assert(pow10((ds.push(c).len() - 1) as nat) == 10 * pow10(k));
        assert(d0 * (10 * pow10(k)) == (d0 * pow10(k)) * 10) by (nonlinear_arith);
    }
}

proof fn lemma_enc_nat_shape(n: int)
    requires
        n >= 0,
    ensures
        enc_nat(n).len() >= 1,
        all_digits(enc_nat(n)),
        val_digits(enc_nat(n)) == n,
    decreases n,
{
    if n < 10 {
        assert(enc_nat(n) == seq![dig(n)]);
        assert(enc_nat(n).drop_first() =~= Seq::<char>::empty());
        assert(is_digit(dig(n)));
        assert(dig_val(dig(n)) == n);
        assert(val_digits(Seq::<char>::empty()) == 0);
        assert(val_digits(enc_nat(n)) == n);
    } else {
        lemma_enc_nat_shape(n / 10);
        assert(enc_nat(n) == enc_nat(n / 10) + seq![dig(n % 10)]);
        assert(enc_nat(n) =~= enc_nat(n / 10).push(dig(n % 10)));
        lemma_val_snoc(enc_nat(n / 10), dig(n % 10));
        assert(0 <= n % 10 < 10);
        assert(dig_val(dig(n % 10)) == n % 10);
        vstd::arithmetic::div_mod::lemma_fundamental_div_mod(n, 10);
        assert(val_digits(enc_nat(n)) == (n / 10) * 10 + n % 10);
        assert(all_digits(enc_nat(n))) by {
            assert(forall|q: int|
                0 <= q < enc_nat(n / 10).len() ==> is_digit(#[trigger] enc_nat(n)[q]));
            assert(enc_nat(n)[enc_nat(n).len() - 1] == dig(n % 10));
        }
    }
}

proof fn lemma_p_num_rt(s: Seq<char>, i: int, acc: int, ds: Seq<char>)
    requires
        0 <= i,
        i + ds.len() <= s.len(),
        s.subrange(i, i + ds.len()) == ds,
        all_digits(ds),
        acc >= 0,
        acc * pow10(ds.len() as nat) + val_digits(ds) <= u64::MAX as int,
        i + ds.len() == s.len() || !is_digit(s[i + ds.len()]),
    ensures
        p_num(s, i, acc) == Some((acc * pow10(ds.len() as nat) + val_digits(ds), i + ds.len())),
    decreases ds.len(),
{
    if ds.len() == 0 {
        assert(acc * pow10(0) == acc);
        if i < s.len() {
            assert(!is_digit(s[i]));
        }
    } else {
        lemma_char_at(s, i, ds, 0);
        assert(s[i] == ds[0]);
        assert(is_digit(s[i]));
        let d0 = dig_val(ds[0]);
        let rest = ds.drop_first();
        let k = (ds.len() - 1) as nat;
        let a2 = acc * 10 + d0;
        assert(all_digits(rest)) by {
            assert(forall|q: int| 0 <= q < rest.len() ==> rest[q] == ds[q + 1]);
        }
        lemma_pow10_pos(k);
        lemma_val_nonneg(rest);
        assert(pow10(ds.len() as nat) == 10 * pow10(k));
        assert((acc * 10 + d0) * pow10(k) == acc * (10 * pow10(k)) + d0 * pow10(k))
            by (nonlinear_arith);
        assert(val_digits(ds) == d0 * pow10(k) + val_digits(rest));
        assert(a2 * pow10(k) + val_digits(rest) == acc * pow10(ds.len() as nat) + val_digits(ds));
        assert(a2 * pow10(k) >= a2) by (nonlinear_arith)
            requires
                a2 >= 0,
                pow10(k) >= 1,
        ;
        assert(a2 <= u64::MAX as int);
        assert(ds =~= seq![ds[0]] + rest);
        lemma_peel(s, i, seq![ds[0]], rest);
        lemma_p_num_rt(s, i + 1, a2, rest);
    }
}

proof fn lemma_p_nat_rt(s: Seq<char>, i: int, n: int)
    requires
        0 <= n <= u64::MAX as int,
        0 <= i,
        i + enc_nat(n).len() <= s.len(),
        s.subrange(i, i + enc_nat(n).len()) == enc_nat(n),
        i + enc_nat(n).len() == s.len() || !is_digit(s[i + enc_nat(n).len()]),
    ensures
        p_nat(s, i) == Some((n, i + enc_nat(n).len())),
{
    lemma_enc_nat_shape(n);
    lemma_p_num_rt(s, i, 0, enc_nat(n));
    assert(0 * pow10(enc_nat(n).len() as nat) == 0);
}

proof fn lemma_p_str_body_rt(s: Seq<char>, i: int, acc: Seq<char>, x: Seq<char>)
    requires
        0 <= i,
        i + enc_str_body(x).len() + 1 <= s.len(),
        s.subrange(i, i + enc_str_body(x).len() + 1) == enc_str_body(x) + seq!['"'],
    ensures
        p_str_body(s, i, acc) == Some((acc + x, i + enc_str_body(x).len() + 1)),
    decreases x.len(),
{
    if x.len() == 0 {
        assert(enc_str_body(x) + seq!['"'] =~= seq!['"']);
        lemma_char_at(s, i, enc_str_body(x) + seq!['"'], 0);
        assert(s[i] == '"');
        assert(acc + x =~= acc);
    } else {
        let c = x[0];
        let rest = x.drop_first();
        let e = esc_char(c);
        let tail = enc_str_body(rest) + seq!['"'];
        assert(enc_str_body(x) == e + enc_str_body(rest));
        assert(enc_str_body(x) + seq!['"'] =~= e + tail);
        lemma_peel(s, i, e, tail);
        if c == '"' || c == '\\' {
            lemma_char_at(s, i, e, 0);
            lemma_char_at(s, i, e, 1);
            assert(s[i] == '\\');
            assert(s[i + 1] == c);
            lemma_p_str_body_rt(s, i + 2, acc.push(c), rest);
            assert(acc.push(c) + rest =~= acc + x);
        } else {
            lemma_char_at(s, i, e, 0);
            assert(s[i] == c);
            lemma_p_str_body_rt(s, i + 1, acc.push(c), rest);
            assert(acc.push(c) + rest =~= acc + x);
        }
    }
}

proof fn lemma_p_string_rt(s: Seq<char>, i: int, x: Seq<char>)
    requires
        0 <= i,
        i + enc_string(x).len() <= s.len(),
        s.subrange(i, i + enc_string(x).len()) == enc_string(x),
    ensures
        p_string(s, i) == Some((x, i + enc_string(x).len())),
{
    let tail = enc_str_body(x) + seq!['"'];
    assert(enc_string(x) =~= seq!['"'] + tail);
    lemma_peel(s, i, seq!['"'], tail);
    lemma_char_at(s, i, seq!['"'], 0);
    assert(s[i] == '"');
    lemma_p_str_body_rt(s, i + 1, Seq::empty(), x);
    assert(Seq::<char>::empty() + x =~= x);
}

#[verifier::rlimit(100)]
proof fn lemma_p_entry_rt(s: Seq<char>, i: int, e: FileEntryModel)
    requires
        0 <= i,
        i + enc_entry(e).len() <= s.len(),
        s.subrange(i, i + enc_entry(e).len()) == enc_entry(e),
    ensures
        p_entry(s, i) == Some((e, i + enc_entry(e).len())),
{
    reveal_strlit("{\"path\":");
    reveal_strlit(",\"hash\":");
    reveal_strlit(",\"size\":");
    reveal_strlit(",\"modified\":");
    reveal_strlit(",\"mode\":");
    reveal_strlit("}");
    let a1 = "{\"path\":"@;
    let b1 = enc_string(e.path);
    let a2 = ",\"hash\":"@;
    let b2 = enc_string(e.hash);
    let a3 = ",\"size\":"@;
    let b3 = enc_nat(e.size as int);
    let a4 = ",\"modified\":"@;
    let b4 = enc_nat(e.modified as int);
    let a5 = ",\"mode\":"@;
    let b5 = enc_nat(e.mode as int);
    let a6 = "}"@;
    let t10 = b5 + a6;
    let t9 = a5 + t10;
    let t8 = b4 + t9;
    let t7 = a4 + t8;
    let t6 = b3 + t7;
    let t5 = a3 + t6;
    let t4 = b2 + t5;
    let t3 = a2 + t4;
    let t2 = b1 + t3;
    assert(enc_entry(e) =~= a1 + t2);
    lemma_peel(s, i, a1, t2);
    let p1 = i + a1.len();
    lemma_peel(s, p1, b1, t3);
    let p2 = p1 + b1.len();
    lemma_peel(s, p2, a2, t4);
    let p3 = p2 + a2.len();
    lemma_peel(s, p3, b2, t5);
    let p4 = p3 + b2.len();
    lemma_peel(s, p4, a3, t6);
    let p5 = p4 + a3.len();
    lemma_peel(s, p5, b3, t7);
    let p6 = p5 + b3.len();
    lemma_peel(s, p6, a4, t8);
    let p7 = p6 + a4.len();
    lemma_peel(s, p7, b4, t9);
    let p8 = p7 + b4.len();
    lemma_peel(s, p8, a5, t10);
    let p9 = p8 + a5.len();
    lemma_peel(s, p9, b5, a6);
    let p10 = p9 + b5.len();
    assert(p_lit(s, i, a1) == Some(p1));
    lemma_p_string_rt(s, p1, e.path);
    assert(p_lit(s, p2, a2) == Some(p3));
    lemma_p_string_rt(s, p3, e.hash);
    assert(p_lit(s, p4, a3) == Some(p5));
    lemma_char_at(s, p6, a4, 0);
    assert(s[p6] == ',');
    assert(!is_digit(','));
    lemma_p_nat_rt(s, p5, e.size as int);
    assert(p_lit(s, p6, a4) == Some(p7));
    lemma_char_at(s, p8, a5, 0);
    assert(s[p8] == ',');
    lemma_p_nat_rt(s, p7, e.modified as int);
    assert(p_lit(s, p8, a5) == Some(p9));
    lemma_char_at(s, p10, a6, 0);
    assert(s[p10] == '}');
    assert(!is_digit('}'));
    lemma_p_nat_rt(s, p9, e.mode as int);
    assert(p_lit(s, p10, a6) == Some(p10 + 1));
    assert(p_entry(s, i) is Some);
    let (pe, pj) = p_entry(s, i).unwrap();
    assert(pe =~= e);
    assert(pj == i + enc_entry(e).len());
}


proof fn lemma_files_items_count(fs: Seq<FileEntryModel>)
    ensures
        enc_files_items(fs).len() >= fs.len(),
    decreases fs.len(),
{
    if fs.len() == 0 {
    } else if fs.len() == 1 {
        assert(enc_file_item(fs[0]).len() >= 1);
    } else {
        lemma_files_items_count(fs.drop_first());
        assert(enc_file_item(fs[0]).len() >= 1);
    }
}

proof fn lemma_strs_items_count(ss: Seq<Seq<char>>)
    ensures
        enc_strs_items(ss).len() >= ss.len(),
    decreases ss.len(),
{
    if ss.len() == 0 {
    } else if ss.len() == 1 {
        assert(enc_string(ss[0]).len() >= 1);
    } else {
        lemma_strs_items_count(ss.drop_first());
        assert(enc_string(ss[0]).len() >= 1);
    }
}

#[verifier::rlimit(100)]
proof fn lemma_p_files_items_rt(
    s: Seq<char>,
    i: int,
    acc: Seq<FileEntryModel>,
    fs: Seq<FileEntryModel>,
    fuel: nat,
)
    requires
        fs.len() >= 1,
        fuel >= fs.len(),
        0 <= i,
        i + enc_files_items(fs).len() < s.len(),
        s.subrange(i, i + enc_files_items(fs).len()) == enc_files_items(fs),
        s[i + enc_files_items(fs).len()] == '}',
    ensures
        p_files_items(s, i, acc, fuel) == Some((acc + fs, i + enc_files_items(fs).len())),
    decreases fs.len(),
{
    reveal_strlit(":");
    assert(":"@ =~= seq![':']);
    let e0 = fs[0];
    let bs = enc_string(e0.path);
    let item = enc_file_item(e0);
    if fs.len() == 1 {
        assert(item =~= bs + (":"@ + enc_entry(e0)));
        lemma_peel(s, i, bs, ":"@ + enc_entry(e0));
        let i1 = i + bs.len();
        lemma_peel(s, i1, ":"@, enc_entry(e0));
        let i2 = i1 + 1;
        lemma_p_string_rt(s, i, e0.path);
        assert(p_lit(s, i1, ":"@) == Some(i2));
        lemma_p_entry_rt(s, i2, e0);
        let i3 = i2 + enc_entry(e0).len();
        assert(i3 == i + enc_files_items(fs).len());
        assert(s[i3] == '}');
        assert(acc.push(e0) =~= acc + fs);
    } else {
        let rest = fs.drop_first();
        let rtail = enc_files_items(rest);
        assert(enc_files_items(fs) == item + seq![','] + rtail);
        assert(enc_files_items(fs) =~= bs + (":"@ + (enc_entry(e0) + (seq![','] + rtail))));
        lemma_peel(s, i, bs, ":"@ + (enc_entry(e0) + (seq![','] + rtail)));
        let i1 = i + bs.len();
        lemma_peel(s, i1, ":"@, enc_entry(e0) + (seq![','] + rtail));
        let i2 = i1 + 1;
        lemma_peel(s, i2, enc_entry(e0), seq![','] + rtail);
        let i3 = i2 + enc_entry(e0).len();
        lemma_peel(s, i3, seq![','], rtail);
        lemma_p_string_rt(s, i, e0.path);
        assert(p_lit(s, i1, ":"@) == Some(i2));
        lemma_p_entry_rt(s, i2, e0);
        lemma_char_at(s, i3, seq![','], 0);
        assert(s[i3] == ',');
        lemma_p_files_items_rt(s, i3 + 1, acc.push(e0), rest, (fuel - 1) as nat);
        assert(acc.push(e0) + rest =~= acc + fs);
        assert(i3 + 1 + rtail.len() == i + enc_files_items(fs).len());
    }
}

#[verifier::rlimit(100)]
proof fn lemma_p_files_rt(s: Seq<char>, i: int, fs: Seq<FileEntryModel>, fuel: nat)
    requires
        fuel >= fs.len(),
        0 <= i,
        i + enc_files(fs).len() <= s.len(),
        s.subrange(i, i + enc_files(fs).len()) == enc_files(fs),
    ensures
        p_files(s, i, fuel) == Some((fs, i + enc_files(fs).len())),
{
    reveal_strlit("{");
    reveal_strlit("}");
    assert("{"@ =~= seq!['{']);
    assert("}"@ =~= seq!['}']);
    let items = enc_files_items(fs);
    assert(enc_files(fs) =~= "{"@ + (items + seq!['}']));
    lemma_peel(s, i, "{"@, items + seq!['}']);
    let i1 = i + 1;
    assert(p_lit(s, i, "{"@) == Some(i1));
    lemma_peel(s, i1, items, seq!['}']);
    lemma_char_at(s, i1 + items.len(), seq!['}'], 0);
    assert(s[i1 + items.len()] == '}');
    if fs.len() == 0 {
        assert(items.len() == 0);
        assert(s[i1] == '}');
        assert(Seq::<FileEntryModel>::empty() =~= fs);
    } else {
        assert(items[0] == '"') by {
            assert(enc_file_item(fs[0])[0] == enc_string(fs[0].path)[0]);
            assert(enc_string(fs[0].path)[0] == '"');
            if fs.len() > 1 {
                assert(items[0] == enc_file_item(fs[0])[0]);
            }
        }
        lemma_char_at(s, i1, items, 0);
        assert(s[i1] == '"');
        lemma_p_files_items_rt(s, i1, Seq::empty(), fs, fuel);
        assert(Seq::<FileEntryModel>::empty() + fs =~= fs);
        assert(p_lit(s, i1 + items.len(), "}"@) == Some(i1 + items.len() + 1));
    }
}

#[verifier::rlimit(100)]
proof fn lemma_p_strs_items_rt(s: Seq<char>, i: int, acc: Seq<Seq<char>>, ss: Seq<Seq<char>>, fuel: nat)
    requires
        ss.len() >= 1,
        fuel >= ss.len(),
        0 <= i,
        i + enc_strs_items(ss).len() < s.len(),
        s.subrange(i, i + enc_strs_items(ss).len()) == enc_strs_items(ss),
        s[i + enc_strs_items(ss).len()] == ']',
    ensures
        p_strs_items(s, i, acc, fuel) == Some((acc + ss, i + enc_strs_items(ss).len())),
    decreases ss.len(),
{
    let x0 = ss[0];
    let bs = enc_string(x0);
    if ss.len() == 1 {
        assert(enc_strs_items(ss) == bs);
        lemma_p_string_rt(s, i, x0);
        let i1 = i + bs.len();
        assert(s[i1] == ']');
        assert(acc.push(x0) =~= acc + ss);
    } else {
        let rest = ss.drop_first();
        let rtail = enc_strs_items(rest);
        assert(enc_strs_items(ss) == bs + seq![','] + rtail);
        assert(enc_strs_items(ss) =~= bs + (seq![','] + rtail));
        lemma_peel(s, i, bs, seq![','] + rtail);
        let i1 = i + bs.len();
        lemma_peel(s, i1, seq![','], rtail);
        lemma_p_string_rt(s, i, x0);
        lemma_char_at(s, i1, seq![','], 0);
        assert(s[i1] == ',');
        lemma_p_strs_items_rt(s, i1 + 1, acc.push(x0), rest, (fuel - 1) as nat);
        assert(acc.push(x0) + rest =~= acc + ss);
        assert(i1 + 1 + rtail.len() == i + enc_strs_items(ss).len());
    }
}

#[verifier::rlimit(100)]
proof fn lemma_p_strs_rt(s: Seq<char>, i: int, ss: Seq<Seq<char>>, fuel: nat)
    requires
        fuel >= ss.len(),
        0 <= i,
        i + enc_strs(ss).len() <= s.len(),
        s.subrange(i, i + enc_strs(ss).len()) == enc_strs(ss),
    ensures
        p_strs(s, i, fuel) == Some((ss, i + enc_strs(ss).len())),
{
    reveal_strlit("[");
    reveal_strlit("]");
    assert("["@ =~= seq!['[']);
    assert("]"@ =~= seq![']']);
    let items = enc_strs_items(ss);
    assert(enc_strs(ss) =~= "["@ + (items + seq![']']));
    lemma_peel(s, i, "["@, items + seq![']']);
    let i1 = i + 1;
    assert(p_lit(s, i, "["@) == Some(i1));
    lemma_peel(s, i1, items, seq![']']);
    lemma_char_at(s, i1 + items.len(), seq![']'], 0);
    assert(s[i1 + items.len()] == ']');
    if ss.len() == 0 {
        assert(items.len() == 0);
        assert(s[i1] == ']');
        assert(Seq::<Seq<char>>::empty() =~= ss);
    } else {
        assert(items[0] == '"') by {
            assert(enc_string(ss[0])[0] == '"');
            if ss.len() > 1 {
                assert(items[0] == enc_string(ss[0])[0]);
            }
        }
        lemma_char_at(s, i1, items, 0);
        assert(s[i1] == '"');
        lemma_p_strs_items_rt(s, i1, Seq::empty(), ss, fuel);
        assert(Seq::<Seq<char>>::empty() + ss =~= ss);
        assert(p_lit(s, i1 + items.len(), "]"@) == Some(i1 + items.len() + 1));
    }
}

/// Round trip: decoding an encoded manifest yields that manifest back,
/// every field intact — version, root, timestamp, all file entries with
/// their fingerprints and attributes, the directory list and the pattern
/// list, empty or not.
#[verifier::rlimit(100)]
proof fn lemma_tail_rt(s: Seq<char>, i: int, m: ManifestModel)
    requires
        0 <= i,
        i + enc_tail(m).len() <= s.len(),
        s.subrange(i, i + enc_tail(m).len()) == enc_tail(m),
        s.len() >= m.files.len(),
        s.len() >= m.directories.len(),
        s.len() >= m.excludes.len(),
    ensures
        p_tail(s, i, m.version as int, m.root, m.generated as int) == Some(
            (m, i + enc_tail(m).len()),
        ),
{
    reveal_strlit(",\"files\":");
    reveal_strlit(",\"directories\":");
    reveal_strlit(",\"excludes\":");
    reveal_strlit("}");
    let h4 = ",\"files\":"@;
    let f4 = enc_files(m.files);
    let h5 = ",\"directories\":"@;
    let d5 = enc_strs(m.directories);
    let h6 = ",\"excludes\":"@;
    let e6 = enc_strs(m.excludes);
    let h7 = "}"@;
    let q1 = h4;
    let q2 = q1 + f4;
    let q3 = q2 + h5;
    let q4 = q3 + d5;
    let q5 = q4 + h6;
    let q6 = q5 + e6;
    assert(enc_tail(m) == q6 + h7);
    lemma_peel(s, i, q6, h7);
    lemma_peel(s, i, q5, e6);
    lemma_peel(s, i, q4, h6);
    lemma_peel(s, i, q3, d5);
    lemma_peel(s, i, q2, h5);
    lemma_peel(s, i, q1, f4);
    let p7 = i + h4.len();
    let p8 = p7 + f4.len();
    let p9 = p8 + h5.len();
    let p10 = p9 + d5.len();
    let p11 = p10 + h6.len();
    let p12 = p11 + e6.len();
    assert(p_lit(s, i, h4) == Some(p7));
    lemma_p_files_rt(s, p7, m.files, s.len() as nat);
    assert(p_lit(s, p8, h5) == Some(p9));
    lemma_p_strs_rt(s, p9, m.directories, s.len() as nat);
    assert(p_lit(s, p10, h6) == Some(p11));
    lemma_p_strs_rt(s, p11, m.excludes, s.len() as nat);
    assert(p_lit(s, p12, h7) == Some(p12 + 1));
    assert(p_tail(s, i, m.version as int, m.root, m.generated as int) is Some);
    let (pm, pj) = p_tail(s, i, m.version as int, m.root, m.generated as int).unwrap();
    assert(pm =~= m);
}

/// Round trip: decoding an encoded manifest yields that manifest back,
/// every field intact — version, root, timestamp, all file entries with
/// their fingerprints and attributes, the directory list and the pattern
/// list, empty or not.
#[verifier::rlimit(100)]
pub proof fn lemma_manifest_round_trip(m: ManifestModel)
    ensures
        decode_spec(enc_manifest(m)) == Some(m),
{
    reveal_strlit("{\"version\":");
    reveal_strlit(",\"root\":");
    reveal_strlit(",\"generated\":");
    let s = enc_manifest(m);
    let h1 = "{\"version\":"@;
    let n1 = enc_nat(m.version as int);
    let h2 = ",\"root\":"@;
    let s2 = enc_string(m.root);
    let h3 = ",\"generated\":"@;
    let n3 = enc_nat(m.generated as int);
    let tl = enc_tail(m);
    let q1 = h1;
    let q2 = q1 + n1;
    let q3 = q2 + h2;
    let q4 = q3 + s2;
    let q5 = q4 + h3;
    let q6 = q5 + n3;
    assert(s == q6 + tl);
    assert(s.subrange(0, s.len() as int) =~= s);
    lemma_peel(s, 0, q6, tl);
    lemma_peel(s, 0, q5, n3);
    lemma_peel(s, 0, q4, h3);
    lemma_peel(s, 0, q3, s2);
    lemma_peel(s, 0, q2, h2);
    lemma_peel(s, 0, q1, n1);
    let p1 = h1.len() as int;
    let p2 = p1 + n1.len();
    let p3 = p2 + h2.len();
    let p4 = p3 + s2.len();
    let p5 = p4 + h3.len();
    let p6 = p5 + n3.len();
    assert(p_lit(s, 0, h1) == Some(p1));
    lemma_char_at(s, p2, h2, 0);
    assert(s[p2] == ',');
    assert(!is_digit(','));
    lemma_p_nat_rt(s, p1, m.version as int);
    assert(p_lit(s, p2, h2) == Some(p3));
    lemma_p_string_rt(s, p3, m.root);
    assert(p_lit(s, p4, h3) == Some(p5));
    assert(s[p6] == ',') by {
        reveal_strlit(",\"files\":");
        assert(tl == ",\"files\":"@ + enc_files(m.files) + ",\"directories\":"@ + enc_strs(
            m.directories,
        ) + ",\"excludes\":"@ + enc_strs(m.excludes) + "}"@);
        lemma_char_at(s, p6, tl, 0);
        assert(tl[0] == ',');
    }
    lemma_p_nat_rt(s, p5, m.generated as int);
    lemma_files_items_count(m.files);
    lemma_strs_items_count(m.directories);
    lemma_strs_items_count(m.excludes);
    assert(s.len() >= m.files.len());
    assert(s.len() >= m.directories.len());
    assert(s.len() >= m.excludes.len());
    lemma_tail_rt(s, p6, m);
    assert(p6 + tl.len() == s.len());
    assert(p_manifest(s, 0) is Some);
    let (pm, pj) = p_manifest(s, 0).unwrap();
    assert(pm == m);
    assert(pj == s.len());
}

} // verus!
