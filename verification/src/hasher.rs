//! Content hashing: 128-bit xxh3 behind one trusted specification, with the
//! hex rendering and the commit-wide hash computed in verified code.
use vstd::prelude::*;
use vstd::string::StringSliceAdditionalSpecFns;
use crate::chars::chars_to_string;
use crate::chars::push_string;
use crate::chars::str_chars;
use crate::json::lemma_char_valid;
use crate::model::NewCommit;
use crate::numfmt::hex_of;
use crate::numfmt::hex_u128_chars;

verus! {

/// The 128-bit xxh3 digest of a byte sequence. The digest is a pure
/// function of the bytes alone; its value is not written out here.
pub uninterp spec fn xxh3_of(input: Seq<u8>) -> u128;

/// Relies on `xxhash_rust::xxh3::xxh3_128`: the one-shot 128-bit xxh3
/// digest, a deterministic function of the input bytes.
pub assume_specification[ xxhash_rust::xxh3::xxh3_128 ](input: &[u8]) -> (r: u128)
    ensures
        r == xxh3_of(input@),
;

/// The digest of a buffer, in lower-case hex without leading zeros.
pub open spec fn spec_hash_buffer(b: Seq<u8>) -> Seq<char> {
    hex_of(xxh3_of(b) as nat)
}

/// Hash a buffer and render the digest as lower-case hex.
pub fn hash_buffer(buffer: &[u8]) -> (r: String)
    ensures
        r@ == spec_hash_buffer(buffer@),
{
    let val = xxhash_rust::xxh3::xxh3_128(buffer);
    let cs = hex_u128_chars(val);
    chars_to_string(&cs)
}

/// Hash the UTF-8 bytes of a string slice.
pub fn hash_str(buffer: &str) -> (r: String)
    ensures
        r@ == spec_hash_buffer(buffer.spec_bytes()),
{
    let bytes = buffer.as_bytes();
    hash_buffer(bytes)
}

/// Hash a buffer and return the raw 128-bit digest.
pub fn hash_buffer_128bit(buffer: &[u8]) -> (r: u128)
    ensures
        r == xxh3_of(buffer@),
{
    xxhash_rust::xxh3::xxh3_128(buffer)
}

/// Hashing is deterministic: equal buffers have equal digests, and equal
/// hex renderings come only from equal digests.
pub proof fn lemma_hash_deterministic(b1: Seq<u8>, b2: Seq<u8>)
    ensures
        b1 == b2 ==> spec_hash_buffer(b1) == spec_hash_buffer(b2),
        spec_hash_buffer(b1) == spec_hash_buffer(b2) ==> xxh3_of(b1) == xxh3_of(b2),
{
    if spec_hash_buffer(b1) == spec_hash_buffer(b2) {
        crate::numfmt::lemma_hex_injective(xxh3_of(b1) as nat, xxh3_of(b2) as nat);
    }
}

/// Four little-endian bytes for one character's code point.
pub open spec fn char_le_bytes(c: char) -> Seq<u8> {
    seq![
        ((c as u32) % 256) as u8,
        (((c as u32) / 256) % 256) as u8,
        (((c as u32) / 65536) % 256) as u8,
        (((c as u32) / 16777216) % 256) as u8,
    ]
}

/// The little-endian encoding of a character sequence.
pub open spec fn chars_le_bytes(s: Seq<char>) -> Seq<u8>
    decreases s.len(),
{
    if s.len() == 0 {
        Seq::<u8>::empty()
    } else {
        chars_le_bytes(s.drop_last()) + char_le_bytes(s.last())
    }
}

/// Encode a character vector into its little-endian byte form.
pub fn chars_to_le_bytes(s: &Vec<char>) -> (r: Vec<u8>)
    ensures
        r@ == chars_le_bytes(s@),
{
    let n = s.len();
    let mut r: Vec<u8> = Vec::new();
    let mut i: usize = 0;
    proof {
        assert(s@.subrange(0, 0) =~= Seq::<char>::empty());
    }
    while i < n
        invariant
            i <= n,
            n == s@.len(),
            r@ == chars_le_bytes(s@.subrange(0, i as int)),
        decreases n - i,
    {
        let c = s[i];
        proof {
            lemma_char_valid(c);
        }
        let v = c as u32;
        r.push((v % 256) as u8);
        r.push(((v / 256) % 256) as u8);
        r.push(((v / 65536) % 256) as u8);
        r.push(((v / 16777216) % 256) as u8);
        proof {
            assert(s@.subrange(0, i + 1).drop_last() =~= s@.subrange(0, i as int));
            assert(s@.subrange(0, i + 1).last() == s@[i as int]);
            assert(v == s@[i as int] as u32);
            assert(r@ =~= chars_le_bytes(s@.subrange(0, i as int)) + char_le_bytes(s@[i as int]));
        }
        i = i + 1;
    }
    proof {
        assert(s@.subrange(0, n as int) =~= s@);
    }
    r
}

/// An item that contributes a content hash to a commit-wide digest. The
/// engine implements it for its own entries; embedding code may implement it
/// for other record kinds.
pub trait ContentHashable {
    /// The hash text this item contributes.
    spec fn spec_content_hash(&self) -> Seq<char>;

    /// The hash text, as a string.
    fn content_hash(&self) -> (r: String)
        ensures
            r@ == self.spec_content_hash(),
    ;
}

impl ContentHashable for crate::model::CommitEntry {
    open spec fn spec_content_hash(&self) -> Seq<char> {
        self.hash@
    }

    fn content_hash(&self) -> (r: String)
        ensures
            r@ == self.spec_content_hash(),
    {
        self.hash.clone()
    }
}

/// The concatenated content hashes of a sequence of items.
pub open spec fn concat_hashes<E: ContentHashable>(s: Seq<E>) -> Seq<char>
    decreases s.len(),
{
    if s.len() == 0 {
        Seq::<char>::empty()
    } else {
        concat_hashes(s.drop_last()) + s.last().spec_content_hash()
    }
}

/// The textual rendering of the commit metadata that enters the commit-wide
/// digest.
pub open spec fn spec_new_commit_render(c: NewCommit) -> Seq<char> {
    (match c.parent_id {
        Some(p) => "parent:"@ + p@,
        None => "root"@,
    }) + "\n"@ + c.message@ + "\n"@ + c.author@ + "\n"@ + c.date@
}

/// Render the commit metadata for hashing.
pub fn new_commit_render(c: &NewCommit) -> (r: Vec<char>)
    ensures
        r@ == spec_new_commit_render(*c),
{
    let mut out: Vec<char> = Vec::new();
    match &c.parent_id {
        Some(p) => {
            crate::chars::push_chars(&mut out, "parent:");
            push_string(&mut out, p);
        },
        None => {
            crate::chars::push_chars(&mut out, "root");
        },
    }
    crate::chars::push_chars(&mut out, "\n");
    push_string(&mut out, &c.message);
    crate::chars::push_chars(&mut out, "\n");
    push_string(&mut out, &c.author);
    crate::chars::push_chars(&mut out, "\n");
    push_string(&mut out, &c.date);
    proof {
        assert(out@ =~= spec_new_commit_render(*c));
    }
    out
}

/// The text whose digest is the commit-wide hash: every entry's content
/// hash in order, then the metadata rendering.
pub open spec fn spec_commit_hash_text<E: ContentHashable>(c: NewCommit, entries: Seq<E>) -> Seq<
    char,
> {
    concat_hashes(entries) + spec_new_commit_render(c)
}

/// The commit-wide content hash: xxh3 over the entry hashes followed by the
/// commit metadata, rendered as lower-case hex. Used for sync and cache
/// keys, not for commit identity.
pub fn compute_commit_hash<E: ContentHashable>(commit_data: &NewCommit, entries: &Vec<E>) -> (r:
    String)
    ensures
        r@ == spec_hash_buffer(chars_le_bytes(spec_commit_hash_text(*commit_data, entries@))),
{
    let n = entries.len();
    let mut text: Vec<char> = Vec::new();
    let mut i: usize = 0;
    proof {
        assert(entries@.subrange(0, 0) =~= Seq::<E>::empty());
    }
    while i < n
        invariant
            i <= n,
            n == entries@.len(),
            text@ == concat_hashes(entries@.subrange(0, i as int)),
        decreases n - i,
    {
        let h = entries[i].content_hash();
        push_string(&mut text, &h);
        proof {
            assert(entries@.subrange(0, i + 1).drop_last() =~= entries@.subrange(0, i as int));
            assert(entries@.subrange(0, i + 1).last() == entries@[i as int]);
        }
        i = i + 1;
    }
    proof {
        assert(entries@.subrange(0, n as int) =~= entries@);
    }
    let meta = new_commit_render(commit_data);
    let ghost before = text@;
    let mn = meta.len();
    let mut m: usize = 0;
    while m < mn
        invariant
            m <= mn,
            mn == meta@.len(),
            text@ == before + meta@.subrange(0, m as int),
        decreases mn - m,
    {
        text.push(meta[m]);
        m = m + 1;
        proof {
            assert(text@ =~= before + meta@.subrange(0, m as int));
        }
    }
    proof {
        assert(text@ =~= spec_commit_hash_text(*commit_data, entries@));
    }
    let bytes = chars_to_le_bytes(&text);
    let val = xxhash_rust::xxh3::xxh3_128(bytes.as_slice());
    let cs = hex_u128_chars(val);
    proof {
        assert(bytes@ == chars_le_bytes(spec_commit_hash_text(*commit_data, entries@)));
    }
    chars_to_string(&cs)
}

} // verus!
