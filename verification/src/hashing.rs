//! Digests of values, and the cache files named after them.
use crate::numbers::{digit, digits, digits_of, law_digits_injective};
use crate::paths::{
    file_name, is_name, join_path, joined, last_dot, law_joined_file_name, lemma_last_dot_place,
    no_slash, with_extension, with_new_extension, with_slash,
};
use crate::text::{opt_view, text_of};
use std::hash::{DefaultHasher, Hash, Hasher};
use vstd::endian::{endianness, Endian};
use vstd::prelude::*;
use vstd::std_specs::hash::DefaultHasherAdditionalSpecFns;

verus! {

/// What a text feeds to a hasher.
pub uninterp spec fn text_writes(text: Seq<char>) -> Seq<Seq<u8>>;

/// What an optional text feeds to a hasher on a target whose addresses have so many bits, and that
/// stores the highest byte of an integer first or last.
pub uninterp spec fn opt_text_writes(
    text: Option<Seq<char>>,
    bits: u32,
    big_endian: bool,
) -> Seq<Seq<u8>>;

/// What an optional text feeds to a hasher on the target of this program.
pub open spec fn native_opt_text_writes(text: Option<Seq<char>>) -> Seq<Seq<u8>> {
    opt_text_writes(text, usize::BITS, endianness() == Endian::Big)
}

/// `<str as Hash>::hash`: feeds the text to the hasher. What is fed is a function of the text.
#[verifier::external_body]
pub(crate) fn feed_text(state: &mut DefaultHasher, text: &str)
    ensures
        final(state)@ == old(state)@ + text_writes(text@),
{
    text.hash(state)
}

/// `<Option<String> as Hash>::hash`: feeds the text, or that there is none, to the hasher. What is
/// fed is a function of the optional text and of how the target stores the integer that marks whether
/// there is a text: in how many bytes, and in which order.
#[verifier::external_body]
pub(crate) fn feed_opt_text(state: &mut DefaultHasher, text: &Option<String>)
    ensures
        final(state)@ == old(state)@ + opt_text_writes(
            opt_view(*text),
            usize::BITS,
            endianness() == Endian::Big,
        ),
{
    text.hash(state)
}

/// A value that can be fed to a hasher.
pub trait HashInput {
    /// What the value feeds to a hasher.
    spec fn writes(&self) -> Seq<Seq<u8>>;

    /// Feeds the value to the hasher.
    fn feed(&self, state: &mut DefaultHasher)
        ensures
            final(state)@ == old(state)@ + self.writes(),
    ;
}

impl HashInput for str {
    open spec fn writes(&self) -> Seq<Seq<u8>> {
        text_writes(self@)
    }

    fn feed(&self, state: &mut DefaultHasher) {
        feed_text(state, self)
    }
}

impl HashInput for String {
    open spec fn writes(&self) -> Seq<Seq<u8>> {
        text_writes(self@)
    }

    fn feed(&self, state: &mut DefaultHasher) {
        feed_text(state, self.as_str())
    }
}

/// The digest of what was fed to a fresh hasher.
pub open spec fn digest(writes: Seq<Seq<u8>>) -> u64 {
    DefaultHasher::spec_finish(writes)
}

/// A digest in hexadecimal.
pub open spec fn hex(digest: u64) -> Seq<char> {
    digits(digest as nat, 16)
}

/// The digest of what was fed to a fresh hasher, in hexadecimal.
pub open spec fn hex_digest(writes: Seq<Seq<u8>>) -> Seq<char> {
    hex(digest(writes))
}

/// The digest of a value.
pub fn digest_of<H: HashInput + ?Sized>(value: &H) -> (res: u64)
    ensures
        res == digest(value.writes()),
{
    let mut hasher = DefaultHasher::new();
    value.feed(&mut hasher);
    assert(hasher@ =~= value.writes());
    hasher.finish()
}

/// A digest in hexadecimal.
pub fn hex_text(digest: u64) -> (res: String)
    ensures
        res@ == hex(digest),
{
    text_of(digits_of(digest, 16).as_slice())
}

/// The digest of a value, in hexadecimal.
pub fn hex_hash<H: HashInput + ?Sized>(value: &H) -> (res: String)
    ensures
        res@ == hex_digest(value.writes()),
{
    hex_text(digest_of(value))
}

/// The path, below `root_dir`, of the cache file that is named after a digest.
pub open spec fn digest_file(root_dir: Seq<char>, digest: u64) -> Seq<char> {
    with_extension(join_path(root_dir, hex(digest)), "cache"@)
}

/// The path, below `root_dir`, of the cache file for a value that feeds `writes` to a hasher.
pub open spec fn cache_file(root_dir: Seq<char>, writes: Seq<Seq<u8>>) -> Seq<char> {
    digest_file(root_dir, digest(writes))
}

/// The path, below `root_dir`, of the cache file that is named after a digest.
pub fn digest_path(root_dir: &str, digest: u64) -> (res: String)
    ensures
        res@ == digest_file(root_dir@, digest),
{
    proof {
        reveal_strlit("cache");
    }
    let path = joined(root_dir, hex_text(digest).as_str());
    with_new_extension(path.as_str(), "cache")
}

/// The path, below `root_dir`, of the cache file for `value`.
pub fn cache_path<H: HashInput + ?Sized>(root_dir: &str, value: &H) -> (res: String)
    ensures
        res@ == cache_file(root_dir@, value.writes()),
{
    digest_path(root_dir, digest_of(value))
}

/// A number in base sixteen is made of the digits up to nine and the letters from `a` to `f`.
pub proof fn lemma_hex_digits(n: nat)
    ensures
        digits(n, 16).len() > 0,
        forall|i: int|
            0 <= i < digits(n, 16).len() ==> is_hex_digit(#[trigger] digits(n, 16)[i]),
    decreases n,
{
    if n >= 16 {
        lemma_hex_digits(n / 16);
        assert(is_hex_digit(digit(n % 16)));
    } else {
        assert(is_hex_digit(digit(n)));
    }
}

/// Whether `c` is one of the digits up to nine or of the letters from `a` to `f`.
pub open spec fn is_hex_digit(c: char) -> bool {
    '0' <= c <= '9' || 'a' <= c <= 'f'
}

/// A text without dots, slashes and spaces is a file name without an extension.
proof fn lemma_plain_name(name: Seq<char>)
    requires
        name.len() > 0,
        forall|i: int| 0 <= i < name.len() ==> is_hex_digit(#[trigger] name[i]),
    ensures
        is_name(name),
        no_slash(name),
        last_dot(name) == -1,
{
    assert(is_hex_digit(name[0]));
    lemma_last_dot_place(name);
    if last_dot(name) >= 0 {
        assert(is_hex_digit(name[last_dot(name)]));
    }
}

/// The cache file that is named after a digest stands in its directory, and its name is the digest
/// with the extension `cache`.
pub proof fn law_digest_file(root_dir: Seq<char>, digest: u64)
    ensures
        digest_file(root_dir, digest) == with_slash(root_dir) + (hex(digest) + ".cache"@),
        file_name(digest_file(root_dir, digest)) == Some(hex(digest) + ".cache"@),
{
    let name = hex(digest);
    reveal_strlit("cache");
    reveal_strlit(".cache");
    lemma_hex_digits(digest as nat);
    lemma_plain_name(name);
    law_joined_file_name(root_dir, name);
    let full = name + ".cache"@;
    assert(digest_file(root_dir, digest) =~= with_slash(root_dir) + full);
    assert forall|i: int| 0 <= i < full.len() implies #[trigger] full[i] != '/' by {
        if i < name.len() {
            assert(is_hex_digit(name[i]));
        }
    }
    assert(full.len() > 2);
    law_joined_file_name(root_dir, full);
}

/// Cache files that are named after different digests are different files.
pub proof fn law_digest_file_distinct(root_dir: Seq<char>, a: u64, b: u64)
    requires
        a != b,
    ensures
        digest_file(root_dir, a) != digest_file(root_dir, b),
{
    law_digest_file(root_dir, a);
    law_digest_file(root_dir, b);
    if digest_file(root_dir, a) == digest_file(root_dir, b) {
        let first = hex(a) + ".cache"@;
        let second = hex(b) + ".cache"@;
        assert(first == second);
        assert(hex(a) =~= first.take(first.len() - ".cache"@.len()));
        assert(hex(b) =~= second.take(second.len() - ".cache"@.len()));
        law_digits_injective(a as nat, b as nat, 16);
    }
}

/// The cache file for a value stands below the directory, and its name is what the hasher makes of the
/// value, in hexadecimal, with the extension `cache`.
pub proof fn law_cache_file(root_dir: Seq<char>, writes: Seq<Seq<u8>>)
    ensures
        cache_file(root_dir, writes) == join_path(
            root_dir,
            digits(DefaultHasher::spec_finish(writes) as nat, 16) + ".cache"@,
        ),
        hex_digest(writes) == digits(DefaultHasher::spec_finish(writes) as nat, 16),
{
    let digest = digest(writes);
    let name = hex(digest) + ".cache"@;
    law_digest_file(root_dir, digest);
    reveal_strlit(".cache");
    lemma_hex_digits(digest as nat);
    assert(is_hex_digit(hex(digest)[0]));
    assert(name[0] == hex(digest)[0]);
    assert(join_path(root_dir, name) =~= with_slash(root_dir) + name);
}

} // verus!
