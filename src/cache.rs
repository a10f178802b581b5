//! Content-addressed cache keys: the fingerprint of a PDF, the hash of an
//! XHTML text, and the key of a built graph.
use vstd::prelude::*;
use sha2::Digest;
use vstd::string::StringSliceAdditionalSpecFns;
use vstd::utf8::encode_utf8;

verus! {

/// The version of the code that builds graphs.
pub const BLAZEGRAPH_VERSION: &'static str = "0.1.0";

/// The version of the processing rules.
pub const PROCESSING_VERSION: &'static str = "1.0.0";

/// The version of the extractor interface.
pub const TIKA_INTERFACE_VERSION: &'static str = "1.0.0";

/// Bytes taken from each end of a PDF for its fingerprint.
pub const CHUNK_SIZE: usize = 1024;

/// The SHA-256 digest of `b`, as lower-case hexadecimal.
pub uninterp spec fn sha256_hex_of(b: Seq<u8>) -> Seq<char>;

/// Relies on `sha2::Sha256::digest` for the digest of the bytes, and on the
/// `LowerHex` format of its 32-byte output: two lower-case hex digits per
/// byte.
#[verifier::external_body]
pub(crate) fn sha256_hex(b: &[u8]) -> (r: String)
    ensures
        r@ == sha256_hex_of(b@),
        r@.len() == 64,
        forall|i: int| 0 <= i < r@.len() ==> is_lower_hex(#[trigger] r@[i]),
{
    let d = sha2::Sha256::digest(b);
    format!("{:x}", d)
}

/// A lower-case hexadecimal digit.
pub open spec fn is_lower_hex(c: char) -> bool {
    ('0' <= c && c <= '9') || ('a' <= c && c <= 'f')
}

/// `n` as `k` little-endian bytes.
pub open spec fn le_bytes(n: nat, k: nat) -> Seq<u8>
    decreases k,
{
    if k == 0 {
        Seq::empty()
    } else {
        seq![(n % 256) as u8] + le_bytes(n / 256, (k - 1) as nat)
    }
}

/// What a PDF's fingerprint digests: its length as 8 little-endian bytes,
/// its first 1024 bytes (all of it, when shorter), and its last 1024 bytes
/// when it is longer than that.
pub open spec fn fingerprint_input(pdf: Seq<u8>) -> Seq<u8> {
    let n = pdf.len();
    let head = if n < 1024 { pdf } else { pdf.subrange(0, 1024) };
    let tail = if n > 1024 { pdf.subrange(n - 1024, n as int) } else { Seq::empty() };
    le_bytes(n, 8) + head + tail
}

pub(crate) fn push_bytes(out: &mut Vec<u8>, b: &[u8], start: usize, end: usize)
    requires
        start <= end <= b@.len(),
    ensures
        final(out)@ == old(out)@ + b@.subrange(start as int, end as int),
{
    let ghost first = out@;
    let mut i: usize = start;
    while i < end
        invariant
            start <= i <= end,
            end <= b@.len(),
            out@ == first + b@.subrange(start as int, i as int),
        decreases end - i,
    {
        out.push(b[i]);
        assert(out@ =~= first + b@.subrange(start as int, i + 1));
        i = i + 1;
    }
}

pub(crate) fn le_bytes_of(n: u64) -> (r: Vec<u8>)
    ensures
        r@ == le_bytes(n as nat, 8),
{
    let mut out: Vec<u8> = Vec::new();
    let mut v: u64 = n;
    let mut k: usize = 0;
    while k < 8
        invariant
            k <= 8,
            out@ + le_bytes(v as nat, (8 - k) as nat) == le_bytes(n as nat, 8),
        decreases 8 - k,
    {
        let ghost rest = le_bytes(v as nat, (8 - k) as nat);
        assert(rest == seq![(v % 256) as u8] + le_bytes((v / 256) as nat, (8 - k - 1) as nat));
        out.push((v % 256) as u8);
        v = v / 256;
        k = k + 1;
        assert(out@ + le_bytes(v as nat, (8 - k) as nat) =~= le_bytes(n as nat, 8));
    }
    assert(le_bytes(v as nat, 0) =~= Seq::<u8>::empty());
    assert(out@ =~= le_bytes(n as nat, 8));
    out
}

/// The fingerprint of a PDF: a digest of its length and of the bytes at
/// either end.
pub fn calculate_pdf_hash(pdf_bytes: &[u8]) -> (r: String)
    ensures
        r@ == sha256_hex_of(fingerprint_input(pdf_bytes@)),
        r@.len() == 64,
        forall|i: int| 0 <= i < r@.len() ==> is_lower_hex(#[trigger] r@[i]),
{
    let n = pdf_bytes.len();
    let mut buf = le_bytes_of(n as u64);
    let head = if n < CHUNK_SIZE { n } else { CHUNK_SIZE };
    push_bytes(&mut buf, pdf_bytes, 0, head);
    if n > CHUNK_SIZE {
        push_bytes(&mut buf, pdf_bytes, n - CHUNK_SIZE, n);
    }
    assert(pdf_bytes@.subrange(0, n as int) =~= pdf_bytes@);
    assert(buf@ =~= fingerprint_input(pdf_bytes@));
    sha256_hex(buf.as_slice())
}

/// The digest of an XHTML text's UTF-8 bytes.
pub fn calculate_xhtml_hash(xhtml: &str) -> (r: String)
    ensures
        r@ == sha256_hex_of(xhtml.spec_bytes()),
        r@.len() == 64,
        forall|i: int| 0 <= i < r@.len() ==> is_lower_hex(#[trigger] r@[i]),
{
    sha256_hex(xhtml.as_bytes())
}

/// The key of a cached graph.
#[derive(Debug, Clone, PartialEq, Eq, Hash)]
pub struct GraphCacheKey {
    pub xhtml_hash: String,
    pub config_hash: String,
    pub blazegraph_version: String,
    pub processing_version: String,
}

impl GraphCacheKey {
    /// A key for the current code and processing versions.
    pub fn new(xhtml_hash: String, config_hash: String) -> (r: GraphCacheKey)
        ensures
            r.xhtml_hash == xhtml_hash,
            r.config_hash == config_hash,
            r.blazegraph_version@ == BLAZEGRAPH_VERSION@,
            r.processing_version@ == PROCESSING_VERSION@,
    {
        GraphCacheKey {
            xhtml_hash,
            config_hash,
            blazegraph_version: String::from_str(BLAZEGRAPH_VERSION),
            processing_version: String::from_str(PROCESSING_VERSION),
        }
    }

    /// The bytes a key's storage identifier digests: its four fields, one
    /// after the other.
    pub open spec fn spec_key_bytes(&self) -> Seq<u8> {
        encode_utf8(self.xhtml_hash@) + encode_utf8(self.config_hash@) + encode_utf8(
            self.blazegraph_version@,
        ) + encode_utf8(self.processing_version@)
    }

    /// The storage identifier of the key.
    pub fn to_cache_hash(&self) -> (r: String)
        ensures
            r@ == sha256_hex_of(self.spec_key_bytes()),
            r@.len() == 64,
            forall|i: int| 0 <= i < r@.len() ==> is_lower_hex(#[trigger] r@[i]),
    {
        let mut buf: Vec<u8> = Vec::new();
        let a = self.xhtml_hash.as_str().as_bytes();
        push_bytes(&mut buf, a, 0, a.len());
        let b = self.config_hash.as_str().as_bytes();
        push_bytes(&mut buf, b, 0, b.len());
        let c = self.blazegraph_version.as_str().as_bytes();
        push_bytes(&mut buf, c, 0, c.len());
        let d = self.processing_version.as_str().as_bytes();
        push_bytes(&mut buf, d, 0, d.len());
        assert(a@.subrange(0, a@.len() as int) =~= a@);
        assert(b@.subrange(0, b@.len() as int) =~= b@);
        assert(c@.subrange(0, c@.len() as int) =~= c@);
        assert(d@.subrange(0, d@.len() as int) =~= d@);
        assert(buf@ =~= self.spec_key_bytes());
        sha256_hex(buf.as_slice())
    }
}

} // verus!
