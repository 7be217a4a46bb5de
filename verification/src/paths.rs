//! Where the hashed rows of a CSV file go.
use std::path::{Path, PathBuf};
use vstd::prelude::*;
use vstd::string::StringExecFns;
use vstd::utf8::{
    decode_utf8, decode_utf8_encode_utf8, encode_utf8, is_ascii_chars_encode_utf8,
    is_char_boundary_iff_is_leading_byte, is_leading_byte_width_1, pop_first_scalar, valid_utf8,
    valid_utf8_split,
};

verus! {

/// `std::path::Path`.
#[verifier::external_type_specification]
#[verifier::external_body]
pub struct ExPath(Path);

/// `std::path::PathBuf`.
#[verifier::external_type_specification]
#[verifier::external_body]
pub struct ExPathBuf(PathBuf);

/// The path that a `PathBuf` holds (`PathBuf::as_path`).
pub uninterp spec fn held_path(buf: &PathBuf) -> &Path;

/// The last component of a path (`Path::file_name`), in std's encoding of
/// platform strings, a superset of UTF-8; `None` where there is none, as in `/`
/// or `..`.
pub uninterp spec fn file_name(path: &Path) -> Option<Seq<u8>>;

/// The path without its last component (`Path::parent`), in the same encoding.
pub uninterp spec fn parent(path: &Path) -> Option<Seq<u8>>;

/// The whole text of a path (`Path::as_os_str`), in the same encoding.
pub uninterp spec fn path_text(path: &Path) -> Seq<u8>;

/// `text` ends with `name`. The text of a path does not end with its file name
/// where a separator or a dot component follows, as in `dir/` or `dir/.`.
pub open spec fn ends_with(text: Seq<u8>, name: Seq<u8>) -> bool {
    name.len() <= text.len() && text.skip(text.len() - name.len()) == name
}

/// The index of the last dot of a file name, -1 where it has none.
pub open spec fn last_dot(name: Seq<u8>) -> int
    decreases name.len(),
{
    if name.len() == 0 {
        -1
    } else if name.last() == 0x2e {
        name.len() - 1
    } else {
        last_dot(name.drop_last())
    }
}

/// The extension of a file name: what follows the last dot, unless there is no
/// dot or only the one that the name starts with.
pub open spec fn extension(name: Seq<u8>) -> Option<Seq<u8>> {
    if last_dot(name) <= 0 {
        None
    } else {
        Some(name.skip(last_dot(name) + 1))
    }
}

/// A file name without its extension and the dot before it.
pub open spec fn stem(name: Seq<u8>) -> Seq<u8> {
    if last_dot(name) <= 0 {
        name
    } else {
        name.take(last_dot(name))
    }
}

/// The extension of a path's file name as text, if it is text.
pub open spec fn text_extension(name: Option<Seq<u8>>) -> Option<Seq<char>> {
    match name {
        Some(n) => match extension(n) {
            Some(e) => if valid_utf8(e) {
                Some(decode_utf8(e))
            } else {
                None
            },
            None => None,
        },
        None => None,
    }
}

/// The byte is an ASCII letter or digit or a dot.
pub open spec fn is_plain(b: u8) -> bool {
    0x30 <= b <= 0x39 || 0x41 <= b <= 0x5a || 0x61 <= b <= 0x7a || b == 0x2e
}

/// Some byte is a slash.
pub open spec fn has_slash(bytes: Seq<u8>) -> bool {
    exists|i: int| 0 <= i < bytes.len() && #[trigger] bytes[i] == 0x2f
}

/// `ext` holds no path separator: no slash, and otherwise only plain bytes and
/// such as stand in the file name. A file name holds no separator but, on
/// Windows, the slash, which does not separate the components of a verbatim path
/// (one that starts with `\\?\`).
pub open spec fn separator_free(ext: Seq<u8>, name: Option<Seq<u8>>) -> bool {
    &&& !has_slash(ext)
    &&& forall|i: int|
        0 <= i < ext.len() ==> is_plain(#[trigger] ext[i]) || (name is Some && name->0.contains(
            ext[i],
        ))
}

/// Calls `std::path::Path::extension`, and takes the result as text. Claimed of
/// it: the part of the file name after the last dot, unless there is no file
/// name, no dot in it, or only the one that it starts with; `None` also where
/// that part is not valid Unicode.
#[verifier::external_body]
fn path_extension(path: &Path) -> (ext: Option<String>)
    ensures
        match ext {
            Some(e) => text_extension(file_name(path)) == Some(e@),
            None => text_extension(file_name(path)) is None,
        },
{
    path.extension().and_then(|e| e.to_str()).map(String::from)
}

/// Calls `std::path::PathBuf::set_extension` on a copy of the path. Claimed of
/// it: a path without file name stays as it is; otherwise the extension of the
/// file name is replaced, or added where there is none, and the parent stays the
/// same; where the text of the path ends with the file name, what stands before
/// the file name stays as it is, and nothing follows the new one. An extension
/// with a path separator makes it panic, an empty one removes the extension: both
/// are left out. What becomes of a text that goes on behind the file name is not
/// stated, but for file name and parent.
#[verifier::external_body]
fn path_with_extension(path: &Path, ext: &str) -> (out: PathBuf)
    requires
        ext@.len() > 0,
        separator_free(encode_utf8(ext@), file_name(path)),
    ensures
        match file_name(path) {
            None => held_path(&out) == path,
            Some(name) => {
                let text = path_text(path);
                let new_name = stem(name) + seq![0x2eu8] + encode_utf8(ext@);
                &&& file_name(held_path(&out)) == Some(new_name)
                &&& parent(held_path(&out)) == parent(path)
                &&& ends_with(text, name) ==> path_text(held_path(&out)) == text.take(
                    text.len() - name.len(),
                ) + new_name
            },
        },
{
    let mut out = path.to_path_buf();
    out.set_extension(ext);
    out
}

/// The extension of a file of hashed rows.
pub open spec fn hashed_extension(ext: Option<Seq<char>>) -> Seq<char> {
    (match ext {
        Some(e) => e,
        None => "csv"@,
    }) + ".sha.csv"@
}

/// The extension of a file of hashed rows: `.sha.csv` behind the extension of
/// the input, or behind `csv` where that has none.
pub fn sha_csv_extension(ext: Option<String>) -> (out: String)
    ensures
        out@ == hashed_extension(
            match ext {
                Some(e) => Some(e@),
                None => None,
            },
        ),
{
    let mut out: String = match ext {
        Some(e) => e,
        None => "csv".to_owned(),
    };
    out.append(".sha.csv");
    out
}

/// The extension of a file name that is kept: it is text and holds no slash.
pub open spec fn kept_extension(name: Option<Seq<u8>>) -> Option<Seq<char>> {
    match text_extension(name) {
        Some(e) => if has_slash(encode_utf8(e)) {
            None
        } else {
            Some(e)
        },
        None => None,
    }
}

/// A text that ends with the file name `name`, with the file name of the hashed
/// rows at its end.
pub open spec fn hashed_text(text: Seq<u8>, name: Seq<u8>) -> Seq<u8> {
    match extension(name) {
        None => text + encode_utf8(".csv.sha.csv"@),
        Some(e) => if valid_utf8(e) && !has_slash(e) {
            text + encode_utf8(".sha.csv"@)
        } else {
            text.take(text.len() - e.len() - 1) + encode_utf8(".csv.sha.csv"@)
        },
    }
}

/// The name of the file of hashed rows for the input file `name`.
pub open spec fn hashed_file_name(name: Seq<u8>) -> Seq<u8> {
    hashed_text(name, name)
}

/// Tells whether a text holds a slash.
fn holds_slash(text: &str) -> (res: bool)
    ensures
        res == has_slash(encode_utf8(text@)),
{
    let bytes = text.as_bytes();
    let mut i: usize = 0;
    while i < bytes.len()
        invariant
            bytes@ == encode_utf8(text@),
            i <= bytes@.len(),
            forall|j: int| 0 <= j < i ==> #[trigger] bytes@[j] != 0x2f,
        decreases bytes@.len() - i,
    {
        if bytes[i] == 0x2f {
            assert(bytes@[i as int] == 0x2f);
            return true;
        }
        i += 1;
    }
    false
}

/// The path of the file of hashed rows for an input file: in the same place,
/// with `.sha.csv` behind the name where it has an extension, and `.csv.sha.csv`
/// where it has none. An extension that is not Unicode, or that holds a slash (as
/// only a verbatim path of Windows can), is replaced by the latter. A path without
/// file name stays as it is.
///
/// `sample.csv` gives `sample.csv.sha.csv`, `sample.tsv` gives
/// `sample.tsv.sha.csv`.
pub fn sha_csv_path_for_input(input: &Path) -> (out: PathBuf)
    ensures
        match file_name(input) {
            None => held_path(&out) == input,
            Some(name) => {
                &&& file_name(held_path(&out)) == Some(hashed_file_name(name))
                &&& parent(held_path(&out)) == parent(input)
                &&& ends_with(path_text(input), name) ==> path_text(held_path(&out))
                    == hashed_text(path_text(input), name)
            },
        },
{
    let kept = match path_extension(input) {
        Some(e) => if holds_slash(e.as_str()) {
            None
        } else {
            Some(e)
        },
        None => None,
    };
    let ext = sha_csv_extension(kept);
    proof {
        lemma_hashed_extension_fits(file_name(input));
        match file_name(input) {
            Some(name) => {
                assert(name.skip(0) =~= name);
                lemma_hashed_text(name, name);
                let new_name = stem(name) + seq![0x2eu8] + encode_utf8(ext@);
                assert(name.take(0) + new_name =~= new_name);
                if ends_with(path_text(input), name) {
                    lemma_hashed_text(path_text(input), name);
                }
            },
            None => {},
        }
    }
    path_with_extension(input, ext.as_str())
}

proof fn lemma_encode_utf8_concat(a: Seq<char>, b: Seq<char>)
    ensures
        encode_utf8(a + b) == encode_utf8(a) + encode_utf8(b),
    decreases a.len(),
{
    if a.len() == 0 {
        assert(a + b =~= b);
        assert(encode_utf8(a) + encode_utf8(b) =~= encode_utf8(b));
    } else {
        assert((a + b).drop_first() =~= a.drop_first() + b);
        lemma_encode_utf8_concat(a.drop_first(), b);
        assert(encode_utf8(a + b) =~= encode_utf8(a) + encode_utf8(b));
    }
}

proof fn lemma_last_dot(name: Seq<u8>)
    ensures
        -1 <= last_dot(name) < name.len(),
        last_dot(name) >= 0 ==> name[last_dot(name)] == 0x2e,
    decreases name.len(),
{
    if name.len() > 0 && name.last() != 0x2e {
        lemma_last_dot(name.drop_last());
    }
}

proof fn lemma_suffix_bytes()
    ensures
        forall|i: int|
            0 <= i < encode_utf8(".sha.csv"@).len() ==> is_plain(
                #[trigger] encode_utf8(".sha.csv"@)[i],
            ),
        forall|i: int|
            0 <= i < encode_utf8("csv"@).len() ==> is_plain(#[trigger] encode_utf8("csv"@)[i]),
        encode_utf8(".csv.sha.csv"@) == seq![0x2eu8] + (encode_utf8("csv"@) + encode_utf8(
            ".sha.csv"@,
        )),
{
    reveal_strlit(".sha.csv");
    reveal_strlit("csv");
    reveal_strlit(".csv.sha.csv");
    is_ascii_chars_encode_utf8(".sha.csv"@);
    is_ascii_chars_encode_utf8("csv"@);
    is_ascii_chars_encode_utf8(".csv.sha.csv"@);
    assert(encode_utf8(".csv.sha.csv"@) =~= seq![0x2eu8] + (encode_utf8("csv"@) + encode_utf8(
        ".sha.csv"@,
    )));
}

/// The extension of the file of hashed rows holds no path separator.
proof fn lemma_hashed_extension_fits(name: Option<Seq<u8>>)
    ensures
        hashed_extension(kept_extension(name)).len() > 0,
        separator_free(encode_utf8(hashed_extension(kept_extension(name))), name),
{
    reveal_strlit(".sha.csv");
    lemma_suffix_bytes();
    let ext = kept_extension(name);
    let front = match ext {
        Some(e) => e,
        None => "csv"@,
    };
    lemma_encode_utf8_concat(front, ".sha.csv"@);
    let bytes = encode_utf8(hashed_extension(ext));
    let f = encode_utf8(front);
    if ext is Some {
        let n = name->0;
        decode_utf8_encode_utf8(extension(n)->0);
        lemma_last_dot(n);
        assert forall|i: int| 0 <= i < f.len() implies n.contains(#[trigger] f[i]) by {
            assert(f[i] == n[last_dot(n) + 1 + i]);
        }
    }
    assert forall|i: int| 0 <= i < bytes.len() implies #[trigger] bytes[i] != 0x2f && (is_plain(
        bytes[i],
    ) || (name is Some && name->0.contains(bytes[i]))) by {
        if i < f.len() {
            assert(bytes[i] == f[i]);
        } else {
            assert(bytes[i] == encode_utf8(".sha.csv"@)[i - f.len()]);
        }
    }
}

/// Replacing the extension at the end of a text gives the text with the name of
/// the file of hashed rows.
proof fn lemma_hashed_text(text: Seq<u8>, name: Seq<u8>)
    requires
        ends_with(text, name),
    ensures
        text.take(text.len() - name.len()) + (stem(name) + seq![0x2eu8] + encode_utf8(
            hashed_extension(kept_extension(Some(name))),
        )) == hashed_text(text, name),
{
    lemma_suffix_bytes();
    lemma_last_dot(name);
    let ext = kept_extension(Some(name));
    let front = match ext {
        Some(e) => e,
        None => "csv"@,
    };
    lemma_encode_utf8_concat(front, ".sha.csv"@);
    let before = text.take(text.len() - name.len());
    assert(before + name =~= text);
    if text_extension(Some(name)) is Some {
        decode_utf8_encode_utf8(extension(name)->0);
    }
    if ext is Some {
        assert(stem(name) + seq![0x2eu8] + extension(name)->0 =~= name);
    } else if extension(name) is Some {
        assert(before + stem(name) =~= text.take(text.len() - extension(name)->0.len() - 1));
    }
    assert(before + (stem(name) + seq![0x2eu8] + encode_utf8(hashed_extension(ext)))
        =~= hashed_text(text, name));
}

/// For an input whose name is text and has no slash in its extension, the name of
/// the file of hashed rows is the input's name with `.sha.csv` behind it, or with
/// `.csv.sha.csv` where the input has no extension. The same holds of the whole
/// text of the input's path, where it ends with that name.
pub proof fn law_hashed_file_keeps_the_input_name(text: Seq<u8>, name: Seq<u8>)
    requires
        valid_utf8(name),
        extension(name) matches Some(e) ==> !has_slash(e),
    ensures
        hashed_text(text, name) == text + encode_utf8(
            if extension(name) is Some {
                ".sha.csv"@
            } else {
                ".csv.sha.csv"@
            },
        ),
        hashed_file_name(name) == name + encode_utf8(
            if extension(name) is Some {
                ".sha.csv"@
            } else {
                ".csv.sha.csv"@
            },
        ),
{
    if extension(name) is Some {
        let d = last_dot(name);
        lemma_last_dot(name);
        assert(is_leading_byte_width_1(0x2eu8)) by (bit_vector);
        is_char_boundary_iff_is_leading_byte(name, d);
        let from_dot = name.subrange(d, name.len() as int);
        valid_utf8_split(name, d);
        assert(valid_utf8(from_dot));
        assert(from_dot[0] == 0x2e);
        assert(pop_first_scalar(from_dot) =~= extension(name)->0);
    }
}

/// Two inputs with an extension that is kept go to different places, and neither
/// in its own place.
pub proof fn law_inputs_go_to_different_places(
    text1: Seq<u8>,
    name1: Seq<u8>,
    text2: Seq<u8>,
    name2: Seq<u8>,
)
    requires
        kept_extension(Some(name1)) is Some,
        kept_extension(Some(name2)) is Some,
        text1 != text2,
    ensures
        hashed_text(text1, name1) != hashed_text(text2, name2),
        hashed_text(text1, name1) != text1,
{
    reveal_strlit(".sha.csv");
    is_ascii_chars_encode_utf8(".sha.csv"@);
    decode_utf8_encode_utf8(extension(name1)->0);
    decode_utf8_encode_utf8(extension(name2)->0);
    let suffix = encode_utf8(".sha.csv"@);
    assert((text1 + suffix).len() == text1.len() + 8);
    if text1 + suffix == text2 + suffix {
        assert((text1 + suffix).take(text1.len() as int) =~= text1);
        assert((text2 + suffix).take(text2.len() as int) =~= text2);
    }
}

/// The file name of the hashed rows ends in `.sha.csv` behind the extension of the
/// input, which is what follows the last dot of the name unless the name starts
/// with that dot. Where there is no extension, or it is not text or holds a slash,
/// `csv` stands for it.
pub proof fn law_extension_is_extended(text: Seq<u8>, name: Seq<u8>, d: int)
    requires
        -1 <= d < name.len(),
        d >= 0 ==> name[d] == 0x2e,
        forall|i: int| d < i < name.len() ==> #[trigger] name[i] != 0x2e,
    ensures
        d <= 0 ==> hashed_text(text, name) == text + encode_utf8(".csv.sha.csv"@),
        d > 0 && valid_utf8(name.skip(d + 1)) && !name.skip(d + 1).contains(0x2fu8)
            ==> hashed_text(text, name) == text + encode_utf8(".sha.csv"@),
        d > 0 && !(valid_utf8(name.skip(d + 1)) && !name.skip(d + 1).contains(0x2fu8))
            ==> hashed_text(text, name) == text.take(text.len() - (name.len() - d)) + encode_utf8(
            ".csv.sha.csv"@,
        ),
        hashed_file_name(name) == hashed_text(name, name),
{
    lemma_last_dot_is(name, d);
    if d > 0 {
        let e = name.skip(d + 1);
        if e.contains(0x2fu8) {
            let i = choose|i: int| 0 <= i < e.len() && e[i] == 0x2fu8;
            assert(e[i] == 0x2f);
        }
        if has_slash(e) {
            let i = choose|i: int| 0 <= i < e.len() && #[trigger] e[i] == 0x2f;
            assert(e.contains(e[i]));
        }
    }
}

proof fn lemma_last_dot_is(name: Seq<u8>, d: int)
    requires
        -1 <= d < name.len(),
        d >= 0 ==> name[d] == 0x2e,
        forall|i: int| d < i < name.len() ==> #[trigger] name[i] != 0x2e,
    ensures
        last_dot(name) == d,
    decreases name.len(),
{
    if name.len() > 0 && name.last() != 0x2e {
        let front = name.drop_last();
        assert forall|i: int| d < i < front.len() implies #[trigger] front[i] != 0x2e by {
            assert(front[i] == name[i]);
        }
        lemma_last_dot_is(front, d);
    } else if name.len() > 0 {
        assert(d == name.len() - 1) by {
            if d < name.len() - 1 {
                assert(name[name.len() - 1] != 0x2e);
            }
        }
    }
}

/// A text ends with a name where it is some other text with the name behind it;
/// and the extension of hashed rows is `.sha.csv` behind the extension of the
/// input, or behind `csv`.
pub proof fn law_parts_of_a_path(before: Seq<u8>, name: Seq<u8>, ext: Seq<char>)
    ensures
        ends_with(before + name, name),
        hashed_extension(Some(ext)) == ext + ".sha.csv"@,
        hashed_extension(None) == "csv.sha.csv"@,
{
    assert((before + name).skip(before.len() as int) =~= name);
    reveal_strlit("csv");
    reveal_strlit(".sha.csv");
    reveal_strlit("csv.sha.csv");
    assert(hashed_extension(None) =~= "csv.sha.csv"@);
}

} // verus!
