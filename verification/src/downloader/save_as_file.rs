//! What a server says of a file, and the file name that follows from it.
use crate::error::GrabError;
use crate::hashing::{
    digest, digest_of, feed_opt_text, hex, hex_text, is_hex_digit, lemma_hex_digits,
    native_opt_text_writes, HashInput,
};
use crate::paths::{is_name, no_slash};
use crate::text::{
    chars_of, contains, has_text, is_ascii_alphanumeric, opt_view, split, split_chars, text_of,
    texts, trim, trim_by, trimmed, Trimmed,
};
use crate::text_laws::{bare_ends, law_trim};
use std::hash::DefaultHasher;
use vstd::prelude::*;
use vstd::slice::slice_subrange;

verus! {

/// Whether a character outside ASCII is a letter or a number in Unicode.
pub uninterp spec fn is_unicode_alphanumeric(c: char) -> bool;

/// Letters and numbers.
pub open spec fn is_alphanumeric(c: char) -> bool {
    if c as u32 <= 127 {
        is_ascii_alphanumeric(c)
    } else {
        is_unicode_alphanumeric(c)
    }
}

/// `char::is_alphanumeric`: whether the character is alphabetic or numeric in Unicode; of the ASCII
/// characters the digits and letters are.
pub assume_specification[ char::is_alphanumeric ](c: char) -> (res: bool)
    ensures
        c as u32 <= 127 ==> res == is_ascii_alphanumeric(c),
        c as u32 > 127 ==> res == is_unicode_alphanumeric(c),
;

/// What a server says of a file that it sends.
#[derive(Debug, PartialEq, Eq, Hash)]
pub struct DownloadItemInfo {
    /// The header `Content-Disposition`.
    pub description: Option<String>,
    /// The header `Content-Type`.
    pub content_type: Option<String>,
}

impl Clone for DownloadItemInfo {
    fn clone(&self) -> (res: DownloadItemInfo)
        ensures
            res == *self,
    {
        DownloadItemInfo {
            description: copied(&self.description),
            content_type: copied(&self.content_type),
        }
    }
}

/// A copy of a text that may be missing.
fn copied(text: &Option<String>) -> (res: Option<String>)
    ensures
        res == *text,
{
    match text {
        Some(text) => Some(text.clone()),
        None => None,
    }
}

impl HashInput for DownloadItemInfo {
    open spec fn writes(&self) -> Seq<Seq<u8>> {
        native_opt_text_writes(opt_view(self.description)) + native_opt_text_writes(
            opt_view(self.content_type),
        )
    }

    fn feed(&self, state: &mut DefaultHasher) {
        let ghost before = state@;
        feed_opt_text(state, &self.description);
        feed_opt_text(state, &self.content_type);
        assert(state@ =~= before + self.writes());
    }
}

/// How many bytes UTF-8 takes for `c`.
pub open spec fn char_bytes(c: char) -> nat {
    let u = c as u32;
    if u < 0x80 {
        1
    } else if u < 0x800 {
        2
    } else if u < 0x10000 {
        3
    } else {
        4
    }
}

/// What is left of `s` after its first `n` bytes, if a character begins there.
pub open spec fn after_bytes(s: Seq<char>, n: nat) -> Option<Seq<char>>
    decreases s.len(),
{
    if n == 0 {
        Some(s)
    } else if s.len() == 0 || char_bytes(s.first()) > n {
        None
    } else {
        after_bytes(s.drop_first(), (n - char_bytes(s.first())) as nat)
    }
}

/// The first of the parts that `pat` stands in.
pub open spec fn first_with(parts: Seq<Seq<char>>, pat: Seq<char>) -> Option<Seq<char>>
    decreases parts.len(),
{
    if parts.len() == 0 {
        None
    } else if contains(parts.first(), pat) {
        Some(parts.first())
    } else {
        first_with(parts.drop_first(), pat)
    }
}

/// The part of a content disposition that gives the file name: the first of those between the
/// semicolons that holds `filename=`.
pub open spec fn name_part(description: Seq<char>) -> Option<Seq<char>> {
    first_with(split(description, ';').map_values(|part: Seq<char>| trim(part)), "filename="@)
}

/// Whether a character may stand in a file name.
pub open spec fn is_file_char(c: char) -> bool {
    is_alphanumeric(c) || c == '_' || c == '.' || c == '-'
}

/// A text with `_` in the place of each character that may not stand in a file name.
pub open spec fn masked(s: Seq<char>) -> Seq<char> {
    s.map_values(
        |c: char|
            if is_file_char(c) {
                c
            } else {
                '_'
            },
    )
}

/// A text made fit to be a file name.
pub open spec fn sanitized(s: Seq<char>) -> Seq<char> {
    trim_by(masked(s), Trimmed::NotAlphanumeric)
}

/// A file name made of a digest and an extension.
pub open spec fn hashed_name(digest: u64, ext: Seq<char>) -> Seq<char> {
    hex(digest) + "."@ + ext
}

/// A file name made of a digest and an extension.
pub fn name_of_digest(digest: u64, ext: &str) -> (res: String)
    ensures
        res@ == hashed_name(digest, ext@),
{
    let mut name = hex_text(digest);
    name.append(".");
    name.append(ext);
    name
}

impl DownloadItemInfo {
    /// The part of the content disposition that gives the file name.
    pub open spec fn spec_name_part(&self) -> Option<Seq<char>> {
        match opt_view(self.description) {
            Some(description) => name_part(description),
            None => None,
        }
    }

    /// Whether the content type, where there is one, is one with a known extension.
    pub open spec fn known_type(&self) -> bool {
        match opt_view(self.content_type) {
            Some(content_type) => contains(content_type, "torrent"@),
            None => true,
        }
    }

    /// Whether a file name, or that there is none, follows from the headers: where a part gives the
    /// name, a character begins after its first nine bytes; elsewhere the type is a known one.
    pub open spec fn nameable(&self) -> bool {
        match self.spec_name_part() {
            Some(part) => after_bytes(part, 9) is Some,
            None => self.known_type(),
        }
    }

    /// The file name that follows from the headers.
    pub open spec fn spec_file_name(&self) -> Option<Seq<char>> {
        match self.spec_name_part() {
            Some(part) => Some(sanitized(after_bytes(part, 9).unwrap())),
            None => match self.content_type {
                Some(_) => Some(hashed_name(digest(self.writes()), "torrent"@)),
                None => None,
            },
        }
    }

    /// The name for the file: the one that the content disposition gives, made fit for a file
    /// system, or else the digest of the headers with the extension for the content type.
    pub fn file_name(&self) -> (res: Option<String>)
        requires
            self.nameable(),
        ensures
            opt_view(res) == self.spec_file_name(),
    {
        if let Some(description) = &self.description {
            let part = find_name_part(description.as_str());
            if let Some(part) = part {
                let name = skip_bytes(part.as_slice(), 9);
                return Some(sanitize(name));
            }
        }
        match self.get_extension() {
            Some(ext) => Some(name_of_digest(digest_of(self), ext)),
            None => None,
        }
    }

    /// The extension for the content type.
    pub fn get_extension(&self) -> (res: Option<&'static str>)
        requires
            self.known_type(),
        ensures
            match res {
                Some(ext) => self.content_type is Some && ext@ == "torrent"@,
                None => self.content_type is None,
            },
    {
        match &self.content_type {
            Some(_) => Some("torrent"),
            None => None,
        }
    }

    /// Whether a file name, or that there is none, follows from the headers.
    pub fn is_nameable(&self) -> (res: bool)
        ensures
            res == self.nameable(),
    {
        if let Some(description) = &self.description {
            let part = find_name_part(description.as_str());
            if let Some(part) = part {
                return bytes_end(part.as_slice(), 9).is_some();
            }
        }
        match &self.content_type {
            Some(content_type) => {
                let chars = chars_of(content_type.as_str());
                let pat = chars_of("torrent");
                has_text(chars.as_slice(), pat.as_slice())
            },
            None => true,
        }
    }
}

/// The part of a content disposition that gives the file name.
fn find_name_part(description: &str) -> (res: Option<Vec<char>>)
    ensures
        match res {
            Some(part) => name_part(description@) == Some(part@),
            None => name_part(description@) is None,
        },
{
    let chars = chars_of(description);
    let pat = chars_of("filename=");
    let parts = split_chars(chars.as_slice(), ';');
    let ghost all = texts(parts@).map_values(|part: Seq<char>| trim(part));
    let mut i: usize = 0;
    assert(all.skip(0) =~= all);
    while i < parts.len()
        invariant
            i <= parts.len(),
            all == texts(parts@).map_values(|part: Seq<char>| trim(part)),
            pat@ == "filename="@,
            name_part(description@) == first_with(all, "filename="@),
            first_with(all, "filename="@) == first_with(all.skip(i as int), "filename="@),
        decreases parts.len() - i,
    {
        let part = trimmed(parts[i].as_slice(), Trimmed::WhiteSpace);
        assert(all.skip(i as int).first() == part@);
        assert(all.skip(i as int).drop_first() =~= all.skip(i + 1));
        if has_text(part, pat.as_slice()) {
            let mut found: Vec<char> = Vec::new();
            let mut k: usize = 0;
            while k < part.len()
                invariant
                    k <= part.len(),
                    found@ == part@.take(k as int),
                decreases part.len() - k,
            {
                found.push(part[k]);
                assert(part@.take(k + 1) =~= part@.take(k as int).push(part@[k as int]));
                k += 1;
            }
            assert(found@ =~= part@);
            return Some(found);
        }
        i += 1;
    }
    None
}

/// How many bytes UTF-8 takes for `c`.
fn bytes_for(c: char) -> (n: usize)
    ensures
        n == char_bytes(c),
{
    let u = c as u32;
    if u < 0x80 {
        1
    } else if u < 0x800 {
        2
    } else if u < 0x10000 {
        3
    } else {
        4
    }
}

/// How many characters the first `n` bytes of the text take, if a character begins after them.
fn bytes_end(chars: &[char], n: usize) -> (res: Option<usize>)
    ensures
        match res {
            Some(i) => i <= chars@.len() && after_bytes(chars@, n as nat) == Some(
                chars@.skip(i as int),
            ),
            None => after_bytes(chars@, n as nat) is None,
        },
{
    let mut i: usize = 0;
    let mut left: usize = n;
    assert(chars@.skip(0) =~= chars@);
    while left > 0
        invariant
            i <= chars.len(),
            after_bytes(chars@, n as nat) == after_bytes(chars@.skip(i as int), left as nat),
        decreases left,
    {
        if i >= chars.len() {
            return None;
        }
        let width = bytes_for(chars[i]);
        assert(chars@.skip(i as int).first() == chars@[i as int]);
        if width > left {
            return None;
        }
        assert(chars@.skip(i as int).drop_first() =~= chars@.skip(i + 1));
        left -= width;
        i += 1;
    }
    Some(i)
}

/// What is left of the text after its first `n` bytes.
fn skip_bytes(chars: &[char], n: usize) -> (res: &[char])
    requires
        after_bytes(chars@, n as nat) is Some,
    ensures
        after_bytes(chars@, n as nat) == Some(res@),
{
    let i: usize = match bytes_end(chars, n) {
        Some(i) => i,
        None => 0,
    };
    let res = slice_subrange(chars, i, chars.len());
    assert(res@ =~= chars@.skip(i as int));
    res
}

/// A text made fit to be a file name.
fn sanitize(name: &[char]) -> (res: String)
    ensures
        res@ == sanitized(name@),
{
    let mut chars: Vec<char> = Vec::new();
    let mut i: usize = 0;
    while i < name.len()
        invariant
            i <= name.len(),
            chars@ == masked(name@).take(i as int),
        decreases name.len() - i,
    {
        let c = name[i];
        if c.is_alphanumeric() || c == '_' || c == '.' || c == '-' {
            chars.push(c);
        } else {
            chars.push('_');
        }
        assert(chars@ =~= masked(name@).take(i + 1));
        i += 1;
    }
    assert(chars@ =~= masked(name@));
    text_of(trimmed(chars.as_slice(), Trimmed::NotAlphanumeric))
}

/// Whether a byte is a visible ASCII character or a tab.
pub open spec fn is_visible(b: u8) -> bool {
    32 <= b < 127 || b == 9
}

/// The text of a header value: only one made of visible ASCII characters and tabs has one.
pub open spec fn spec_header_text(value: Seq<u8>) -> Option<Seq<char>> {
    if forall|i: int| 0 <= i < value.len() ==> is_visible(#[trigger] value[i]) {
        Some(Seq::new(value.len(), |i: int| value[i] as char))
    } else {
        None
    }
}

/// The text of the value of a header that may be missing.
pub open spec fn opt_header_text(value: Option<Vec<u8>>) -> Option<Seq<char>> {
    match value {
        Some(value) => spec_header_text(value@),
        None => None,
    }
}

/// The text of a header value.
pub fn header_text(value: &[u8]) -> (res: Option<String>)
    ensures
        opt_view(res) == spec_header_text(value@),
{
    let mut text = String::new();
    let mut i: usize = 0;
    while i < value.len()
        invariant
            i <= value.len(),
            forall|k: int| 0 <= k < i ==> is_visible(#[trigger] value@[k]),
            text@ == Seq::new(i as nat, |k: int| value@[k] as char),
        decreases value.len() - i,
    {
        let b = value[i];
        if !((32 <= b && b < 127) || b == 9) {
            assert(!is_visible(value@[i as int]));
            return None;
        }
        text.push(b as char);
        assert(text@ =~= Seq::new((i + 1) as nat, |k: int| value@[k] as char));
        i += 1;
    }
    Some(text)
}

/// The text of the value of a header that may be missing.
fn opt_text(value: Option<Vec<u8>>) -> (res: Option<String>)
    ensures
        opt_view(res) == opt_header_text(value),
{
    match value {
        Some(value) => header_text(value.as_slice()),
        None => None,
    }
}

/// Whether an HTTP status stands for a success.
pub open spec fn is_success(status: u16) -> bool {
    200 <= status < 300
}

/// What an answer says of the file that it brings: `status` is its HTTP status, the others are the
/// values of its headers `Content-Disposition` and `Content-Type`. Only a success brings a file.
pub fn accept_response(
    status: u16,
    content_disposition: Option<Vec<u8>>,
    content_type: Option<Vec<u8>>,
) -> (res: Result<DownloadItemInfo, GrabError>)
    ensures
        is_success(status) <==> res is Ok,
        match res {
            Ok(info) => {
                &&& opt_view(info.description) == opt_header_text(content_disposition)
                &&& opt_view(info.content_type) == opt_header_text(content_type)
            },
            Err(err) => err == GrabError::HttpStatus(status),
        },
{
    if status < 200 || status >= 300 {
        return Err(GrabError::HttpStatus(status));
    }
    Ok(
        DownloadItemInfo {
            description: opt_text(content_disposition),
            content_type: opt_text(content_type),
        },
    )
}

/// A text made fit to be a file name holds only characters that may stand in one. Unless it is
/// empty, it begins and ends with an ASCII digit or letter, so that it names a file, and one in the
/// directory where it is put.
pub proof fn law_sanitized(s: Seq<char>)
    ensures
        forall|i: int| 0 <= i < sanitized(s).len() ==> is_file_char(#[trigger] sanitized(s)[i]),
        bare_ends(sanitized(s), Trimmed::NotAlphanumeric),
        no_slash(sanitized(s)),
        sanitized(s).len() > 0 ==> is_name(sanitized(s)),
{
    let name = sanitized(s);
    law_trim(masked(s), Trimmed::NotAlphanumeric);
    let (a, b) = choose|a: int, b: int|
        0 <= a <= b <= masked(s).len() && name == #[trigger] masked(s).subrange(a, b);
    assert forall|i: int| 0 <= i < name.len() implies is_file_char(#[trigger] name[i]) by {
        assert(name[i] == masked(s)[a + i]);
    }
    assert forall|i: int| 0 <= i < name.len() implies #[trigger] name[i] != '/' by {
        assert(is_file_char(name[i]));
    }
    if name.len() > 0 {
        assert(is_ascii_alphanumeric(name[0]));
    }
}

/// The file name that follows from the headers holds no slash, and names a file unless it is empty.
pub proof fn law_file_name_stays(info: DownloadItemInfo)
    requires
        info.nameable(),
    ensures
        info.spec_file_name() matches Some(name) ==> no_slash(name) && (name.len() > 0 ==> is_name(
            name,
        )),
{
    match info.spec_name_part() {
        Some(part) => {
            law_sanitized(after_bytes(part, 9).unwrap());
        },
        None => {
            if info.content_type is Some {
                let digest = digest(info.writes());
                let name = hashed_name(digest, "torrent"@);
                reveal_strlit(".");
                reveal_strlit("torrent");
                lemma_hex_digits(digest as nat);
                assert forall|i: int| 0 <= i < name.len() implies #[trigger] name[i] != '/' by {
                    if i < hex(digest).len() {
                        assert(is_hex_digit(hex(digest)[i]));
                    }
                }
                assert(name.len() > 2);
            }
        },
    }
}

} // verus!
