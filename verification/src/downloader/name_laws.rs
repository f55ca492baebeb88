//! What holds of the names of downloaded files.
use crate::downloader::save_as_file::{
    after_bytes, char_bytes, first_with, hashed_name, is_file_char, is_success,
    is_unicode_alphanumeric, masked, name_part, opt_header_text, sanitized, spec_header_text,
    DownloadItemInfo,
};
use crate::hashing::{digest, HashInput};
use crate::numbers::digits;
use crate::text::{contains, opt_view, split, trim, Trimmed};
use crate::text_laws::{all_of_kind, bare_ends, law_trim, law_trim_nothing};
use vstd::prelude::*;
use vstd::utf8::{encode_scalar, encode_utf8};

verus! {

/// The part of a content disposition, without the white space at its ends, that stands at `i`.
pub open spec fn part_at(description: Seq<char>, i: int) -> Seq<char> {
    trim(split(description, ';')[i])
}

/// Whether the part at `i` is the first that holds `filename=`.
pub open spec fn gives_name(description: Seq<char>, i: int) -> bool {
    &&& 0 <= i < split(description, ';').len()
    &&& contains(part_at(description, i), "filename="@)
    &&& forall|j: int| 0 <= j < i ==> !contains(#[trigger] part_at(description, j), "filename="@)
}

/// The first of the parts with a text in it is the one with none such before it.
proof fn lemma_first_with(parts: Seq<Seq<char>>, pat: Seq<char>)
    ensures
        match first_with(parts, pat) {
            Some(part) => exists|i: int|
                0 <= i < parts.len() && part == #[trigger] parts[i] && contains(parts[i], pat)
                    && forall|j: int| 0 <= j < i ==> !contains(#[trigger] parts[j], pat),
            None => forall|i: int| 0 <= i < parts.len() ==> !contains(#[trigger] parts[i], pat),
        },
    decreases parts.len(),
{
    if parts.len() > 0 && !contains(parts.first(), pat) {
        let rest = parts.drop_first();
        lemma_first_with(rest, pat);
        match first_with(rest, pat) {
            Some(part) => {
                let i = choose|i: int|
                    0 <= i < rest.len() && part == #[trigger] rest[i] && contains(rest[i], pat)
                        && forall|j: int| 0 <= j < i ==> !contains(#[trigger] rest[j], pat);
                assert(part == parts[i + 1]);
                assert forall|j: int| 0 <= j < i + 1 implies !contains(#[trigger] parts[j], pat) by {
                    if j > 0 {
                        assert(parts[j] == rest[j - 1]);
                    }
                }
            },
            None => {
                assert forall|i: int| 0 <= i < parts.len() implies !contains(
                    #[trigger] parts[i],
                    pat,
                ) by {
                    if i > 0 {
                        assert(parts[i] == rest[i - 1]);
                    }
                }
            },
        }
    } else if parts.len() > 0 {
        assert(parts.first() == parts[0]);
    }
}

/// The part that gives the name is the first of those between the semicolons that holds `filename=`;
/// there is none exactly if no part does.
pub proof fn law_name_part(description: Seq<char>, i: int)
    ensures
        gives_name(description, i) ==> name_part(description) == Some(part_at(description, i)),
        name_part(description) is None <==> forall|j: int|
            0 <= j < split(description, ';').len() ==> !contains(
                #[trigger] part_at(description, j),
                "filename="@,
            ),
{
    let pat = "filename="@;
    let parts = split(description, ';').map_values(|part: Seq<char>| trim(part));
    lemma_first_with(parts, pat);
    assert forall|j: int| 0 <= j < parts.len() implies #[trigger] parts[j] == part_at(
        description,
        j,
    ) by {}
    match name_part(description) {
        Some(part) => {
            let k = choose|k: int|
                0 <= k < parts.len() && part == #[trigger] parts[k] && contains(parts[k], pat)
                    && forall|j: int| 0 <= j < k ==> !contains(#[trigger] parts[j], pat);
            assert(contains(part_at(description, k), pat));
            if gives_name(description, i) {
                if i < k {
                    assert(!contains(parts[i], pat));
                } else if k < i {
                    assert(!contains(part_at(description, k), pat));
                }
            }
        },
        None => {
            assert forall|j: int| 0 <= j < parts.len() implies !contains(
                #[trigger] part_at(description, j),
                pat,
            ) by {
                assert(!contains(parts[j], pat));
            }
        },
    }
}

/// A character takes as many bytes as its encoding has.
proof fn lemma_char_bytes(c: char)
    ensures
        char_bytes(c) == encode_scalar(c as u32).len(),
{
}

/// The encoding of the first characters of a text.
proof fn lemma_encode_take(s: Seq<char>, i: int)
    requires
        0 < i <= s.len(),
    ensures
        encode_utf8(s.take(i)).len() == char_bytes(s.first()) + encode_utf8(
            s.drop_first().take(i - 1),
        ).len(),
{
    lemma_char_bytes(s.first());
    assert(s.take(i).drop_first() =~= s.drop_first().take(i - 1));
    assert(s.take(i)[0] == s.first());
}

/// What is left after the first `n` bytes of a text is what follows some of its characters that take
/// `n` bytes in UTF-8; nothing is left exactly if no such characters begin it.
pub proof fn law_after_bytes(s: Seq<char>, n: nat)
    ensures
        forall|i: int|
            0 <= i <= s.len() && encode_utf8(#[trigger] s.take(i)).len() == n ==> after_bytes(s, n)
                == Some(s.skip(i)),
        after_bytes(s, n) matches Some(rest) ==> exists|i: int|
            0 <= i <= s.len() && encode_utf8(#[trigger] s.take(i)).len() == n && rest == s.skip(i),
    decreases s.len(),
{
    assert(s.take(0) =~= Seq::empty());
    assert(encode_utf8(s.take(0)).len() == 0);
    assert(s.skip(0) =~= s);
    if n == 0 {
        assert forall|i: int| 0 <= i <= s.len() && encode_utf8(#[trigger] s.take(i)).len()
            == n implies after_bytes(s, n) == Some(s.skip(i)) by {
            if i > 0 {
                lemma_encode_take(s, i);
            }
        }
    } else if s.len() > 0 {
        let rest = s.drop_first();
        let width = char_bytes(s.first());
        if width <= n {
            let m = (n - width) as nat;
            law_after_bytes(rest, m);
            assert forall|i: int| 0 <= i <= s.len() && encode_utf8(#[trigger] s.take(i)).len()
                == n implies after_bytes(s, n) == Some(s.skip(i)) by {
                if i > 0 {
                    lemma_encode_take(s, i);
                    assert(encode_utf8(rest.take(i - 1)).len() == m);
                    assert(rest.skip(i - 1) =~= s.skip(i));
                }
            }
            if let Some(left) = after_bytes(s, n) {
                let i = choose|i: int|
                    0 <= i <= rest.len() && encode_utf8(#[trigger] rest.take(i)).len() == m && left
                        == rest.skip(i);
                lemma_encode_take(s, i + 1);
                assert(rest.take(i + 1 - 1) =~= rest.take(i));
                assert(encode_utf8(s.take(i + 1)).len() == n);
                assert(rest.skip(i) =~= s.skip(i + 1));
            }
        } else {
            assert forall|i: int| 0 <= i <= s.len() && encode_utf8(#[trigger] s.take(i)).len()
                == n implies after_bytes(s, n) == Some(s.skip(i)) by {
                if i > 0 {
                    lemma_encode_take(s, i);
                }
            }
        }
    }
}

/// Where a part of the content disposition gives the file name, the name is what follows the first nine
/// bytes of that part, made fit to be a file name, whatever the content type is.
pub proof fn law_given_name(info: DownloadItemInfo, description: Seq<char>, i: int, k: int)
    requires
        opt_view(info.description) == Some(description),
        gives_name(description, i),
        0 <= k <= part_at(description, i).len(),
        encode_utf8(part_at(description, i).take(k)).len() == 9,
    ensures
        info.nameable(),
        info.spec_file_name() == Some(sanitized(part_at(description, i).skip(k))),
{
    law_name_part(description, i);
    law_after_bytes(part_at(description, i), 9);
}

/// Two answers with the same content disposition, in which a part gives the name, lead to the same name,
/// whatever their content types are.
pub proof fn law_type_is_ignored(a: DownloadItemInfo, b: DownloadItemInfo, i: int)
    requires
        opt_view(a.description) == opt_view(b.description),
        opt_view(a.description) matches Some(description) && gives_name(description, i),
    ensures
        a.spec_file_name() == b.spec_file_name(),
        a.nameable() <==> b.nameable(),
{
    law_name_part(opt_view(a.description)->0, i);
}

/// Where a part gives the name, a name follows exactly if a character begins after nine bytes of it.
pub proof fn law_given_name_follows(info: DownloadItemInfo, description: Seq<char>, i: int)
    requires
        opt_view(info.description) == Some(description),
        gives_name(description, i),
    ensures
        info.nameable() <==> exists|k: int|
            0 <= k <= part_at(description, i).len() && encode_utf8(
                #[trigger] part_at(description, i).take(k),
            ).len() == 9,
{
    law_name_part(description, i);
    law_after_bytes(part_at(description, i), 9);
}

/// Where no part gives the name, it is the digest of the headers with the extension `torrent` for a type
/// that speaks of one, and there is none without a type. Of another type nothing follows.
pub proof fn law_name_by_type(info: DownloadItemInfo)
    requires
        opt_view(info.description) matches Some(description) ==> forall|i: int|
            0 <= i < split(description, ';').len() ==> !contains(
                #[trigger] part_at(description, i),
                "filename="@,
            ),
    ensures
        info.nameable() <==> (opt_view(info.content_type) matches Some(content_type) ==> contains(
            content_type,
            "torrent"@,
        )),
        info.content_type is None ==> info.spec_file_name() is None,
        info.content_type is Some ==> info.spec_file_name() == Some(
            digits(digest(info.writes()) as nat, 16) + ".torrent"@,
        ),
{
    if let Some(description) = opt_view(info.description) {
        law_name_part(description, 0);
    }
    reveal_strlit(".");
    reveal_strlit("torrent");
    reveal_strlit(".torrent");
    assert("."@ + "torrent"@ =~= ".torrent"@);
    assert(hashed_name(digest(info.writes()), "torrent"@) =~= digits(
        digest(info.writes()) as nat,
        16,
    ) + ".torrent"@);
}

/// A name made of a digest is that in hexadecimal, a dot and the extension.
pub proof fn law_hashed_name(digest: u64, ext: Seq<char>)
    ensures
        hashed_name(digest, ext) == digits(digest as nat, 16) + seq!['.'] + ext,
{
    reveal_strlit(".");
    assert("."@ =~= seq!['.']);
}

/// The characters that may stand in a file name: letters and numbers, `_`, `.` and `-`.
pub proof fn law_file_char(c: char)
    ensures
        c as u32 <= 127 ==> (is_file_char(c) <==> '0' <= c <= '9' || 'A' <= c <= 'Z' || 'a' <= c
            <= 'z' || c == '_' || c == '.' || c == '-'),
        c as u32 > 127 ==> (is_file_char(c) <==> is_unicode_alphanumeric(c)),
{
}

/// A text made fit to be a file name is a part of it, with `_` for each character that may not stand
/// there; what is left out at its ends holds no digit or letter of ASCII.
pub proof fn law_sanitized_part(s: Seq<char>)
    ensures
        exists|i: int, j: int|
            {
                &&& 0 <= i <= j <= s.len()
                &&& sanitized(s).len() == j - i
                &&& all_of_kind(#[trigger] s.take(i), Trimmed::NotAlphanumeric)
                &&& all_of_kind(#[trigger] s.skip(j), Trimmed::NotAlphanumeric)
                &&& forall|k: int|
                    0 <= k < j - i ==> #[trigger] sanitized(s)[k] == (if is_file_char(s[i + k]) {
                        s[i + k]
                    } else {
                        '_'
                    })
            },
{
    let kind = Trimmed::NotAlphanumeric;
    let mask = masked(s);
    law_trim(mask, kind);
    let (i, j) = choose|i: int, j: int|
        0 <= i <= j <= mask.len() && sanitized(s) == #[trigger] mask.subrange(i, j) && all_of_kind(
            mask.take(i),
            kind,
        ) && all_of_kind(mask.skip(j), kind);
    assert forall|k: int| 0 <= k < s.take(i).len() implies kind.has(#[trigger] s.take(i)[k]) by {
        assert(kind.has(mask.take(i)[k]));
        assert(mask[k] == mask.take(i)[k]);
        assert(s.take(i)[k] == s[k]);
    }
    assert forall|k: int| 0 <= k < s.skip(j).len() implies kind.has(#[trigger] s.skip(j)[k]) by {
        assert(kind.has(mask.skip(j)[k]));
        assert(mask[j + k] == mask.skip(j)[k]);
        assert(s.skip(j)[k] == s[j + k]);
    }
    assert forall|k: int| 0 <= k < j - i implies #[trigger] sanitized(s)[k] == (if is_file_char(
        s[i + k],
    ) {
        s[i + k]
    } else {
        '_'
    }) by {
        assert(sanitized(s)[k] == mask[i + k]);
    }
    assert(all_of_kind(s.take(i), kind) && all_of_kind(s.skip(j), kind));
}

/// A text that is fit to be a file name stays as it is.
pub proof fn law_clean_name_stays(s: Seq<char>)
    requires
        forall|i: int| 0 <= i < s.len() ==> is_file_char(#[trigger] s[i]),
        bare_ends(s, Trimmed::NotAlphanumeric),
    ensures
        sanitized(s) == s,
{
    assert(masked(s) =~= s);
    law_trim_nothing(s, Trimmed::NotAlphanumeric);
}

/// A header value has a text exactly if it is made of visible ASCII characters, spaces and tabs; the text
/// is made of these.
pub proof fn law_header_text(value: Seq<u8>)
    ensures
        spec_header_text(value) is Some <==> forall|i: int|
            0 <= i < value.len() ==> 32 <= #[trigger] value[i] <= 126 || value[i] == 9,
        spec_header_text(value) matches Some(text) ==> text.len() == value.len() && forall|i: int|
            0 <= i < value.len() ==> #[trigger] text[i] as u32 == value[i] as u32,
        forall|bytes: Vec<u8>| #[trigger] opt_header_text(Some(bytes)) == spec_header_text(bytes@),
        opt_header_text(None) is None,
{
    if forall|i: int| 0 <= i < value.len() ==> 32 <= #[trigger] value[i] <= 126 || value[i] == 9 {
        assert forall|i: int| 0 <= i < value.len() implies
            crate::downloader::save_as_file::is_visible(#[trigger] value[i]) by {}
    }
    if spec_header_text(value) is Some {
        assert forall|i: int| 0 <= i < value.len() implies 32 <= #[trigger] value[i] <= 126
            || value[i] == 9 by {
            assert(crate::downloader::save_as_file::is_visible(value[i]));
        }
    }
}

/// The statuses of success are those from 200 up to 299.
pub proof fn law_success(status: u16)
    ensures
        is_success(status) <==> status / 100 == 2,
{
}

} // verus!
