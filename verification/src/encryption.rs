//! Page-level AES-256-GCM encryption of a storage image.
//!
//! The image is the byte content of an encrypted database file: a 64-byte
//! header (`YSHENC\0\0` magic, an 8-byte per-file nonce prefix, the logical
//! length as a little-endian u64, 40 reserved bytes) followed by 4112-byte
//! encrypted pages (4096 plaintext bytes + 16-byte tag). Page `i` is sealed
//! under the nonce `prefix ++ le32(i)`. Reads and writes address the logical
//! (plaintext) byte space; pages past the end of the image read as zeros.

use vstd::prelude::*;
use aes_gcm::aead::Aead;
use aes_gcm::KeyInit;
use rand::RngCore;

verus! {

pub const KEY_SIZE: usize = 32;
pub const NONCE_SIZE: usize = 12;
pub const TAG_SIZE: usize = 16;
pub const PAGE_SIZE: usize = 4096;
pub const ENCRYPTED_PAGE: usize = 4112;
pub const HEADER_SIZE: usize = 64;
/// Largest logical offset that reads and writes may reach (2 GiB). The
/// whole image is held in memory as a `Vec<u8>`, whose length is a `usize`,
/// and the library is proved for 32-bit as well as 64-bit `usize`: 2^31
/// logical bytes make an image of 64 + 2^19 * 4112 bytes, under 2^32, while
/// the next power of two would not fit.
pub const MAX_LOGICAL: u64 = 2147483648;

/// Errors when opening an encrypted image.
#[derive(Debug)]
pub enum CryptoError {
    Io(String),
    InvalidKey,
    InvalidFile,
}

/// Errors of page reads and writes.
#[derive(Debug, PartialEq, Eq)]
pub enum StorageError {
    /// A page failed authentication: wrong key or corrupted data.
    DecryptionFailed,
    /// The cipher refused to encrypt a page.
    EncryptionFailed,
}

/// The bytes of an optional vector.
pub open spec fn bytes_view(r: Option<Vec<u8>>) -> Option<Seq<u8>> {
    match r {
        Some(v) => Some(v@),
        None => None,
    }
}

// ───────────────────────── AES-256-GCM ─────────────────────────

/// AES-256-GCM with a 96-bit nonce and a 128-bit tag appended to the
/// ciphertext, with empty associated data.
pub uninterp spec fn gcm_seal(key: Seq<u8>, nonce: Seq<u8>, pt: Seq<u8>) -> Seq<u8>;

/// aes-gcm 0.10 `Aes256Gcm::encrypt` (via `new_from_slice`). Claims: it
/// succeeds exactly for plaintexts of at most 2^36 bytes; the ciphertext is
/// `gcm_seal` of the arguments, 16 bytes longer than the plaintext, and no
/// other plaintext seals to it under the same key and nonce.
#[verifier::external_body]
fn aes_seal(key: &[u8], nonce: &[u8], pt: &[u8]) -> (r: Option<Vec<u8>>)
    requires
        key.len() == KEY_SIZE,
        nonce.len() == NONCE_SIZE,
    ensures
        r is Some <==> pt.len() <= 0x10_0000_0000,
        r matches Some(c) ==> c@ == gcm_seal(key@, nonce@, pt@) && c.len() == pt.len() + TAG_SIZE,
        r matches Some(c) ==> forall|p: Seq<u8>| #[trigger] gcm_seal(key@, nonce@, p) == c@ ==> p == pt@,
{
    let cipher = aes_gcm::Aes256Gcm::new_from_slice(key).ok()?;
    cipher.encrypt(aes_gcm::Nonce::from_slice(nonce), pt).ok()
}

/// aes-gcm 0.10 `Aes256Gcm::decrypt`. Claims: a returned plaintext seals
/// back to the ciphertext and is 16 bytes shorter; and when the ciphertext
/// (of at most 2^36 + 16 bytes) is the seal of some plaintext, decryption
/// returns that plaintext.
#[verifier::external_body]
fn aes_open(key: &[u8], nonce: &[u8], ct: &[u8]) -> (r: Option<Vec<u8>>)
    requires
        key.len() == KEY_SIZE,
        nonce.len() == NONCE_SIZE,
    ensures
        r matches Some(p) ==> gcm_seal(key@, nonce@, p@) == ct@ && p.len() + TAG_SIZE == ct.len(),
        forall|p: Seq<u8>| #[trigger] gcm_seal(key@, nonce@, p) == ct@ && ct.len() <= 0x10_0000_0010 ==> bytes_view(r) == Some(p),
{
    let cipher = aes_gcm::Aes256Gcm::new_from_slice(key).ok()?;
    cipher.decrypt(aes_gcm::Nonce::from_slice(nonce), ct).ok()
}

// ───────────────────────── image model ─────────────────────────

pub open spec fn zeros(n: nat) -> Seq<u8> {
    Seq::new(n, |i: int| 0u8)
}

pub open spec fn magic() -> Seq<u8> {
    seq![0x59u8, 0x53u8, 0x48u8, 0x45u8, 0x4eu8, 0x43u8, 0u8, 0u8]
}

/// Little-endian bytes of a u64.
pub open spec fn le_bytes(v: nat, n: nat) -> Seq<u8>
    decreases n,
{
    if n == 0 { Seq::empty() } else { seq![(v % 256) as u8] + le_bytes(v / 256, (n - 1) as nat) }
}

/// The nonce of page `i`: the file prefix followed by the low 32 bits of `i`, little-endian.
pub open spec fn page_nonce(prefix: Seq<u8>, i: int) -> Seq<u8> {
    prefix + le_bytes((i % 0x1_0000_0000) as nat, 4)
}

/// Offset of page `i` in the image.
pub open spec fn phys(i: int) -> int {
    HEADER_SIZE + i * ENCRYPTED_PAGE
}

/// The image holds the whole ciphertext of page `i`.
pub open spec fn stored(img: Seq<u8>, i: int) -> bool {
    phys(i) + ENCRYPTED_PAGE <= img.len()
}

pub open spec fn page_ct(img: Seq<u8>, i: int) -> Seq<u8> {
    img.subrange(phys(i), phys(i) + ENCRYPTED_PAGE)
}

/// Whether the stored ciphertext of page `i` is the seal of some plaintext.
pub open spec fn decodable(img: Seq<u8>, key: Seq<u8>, prefix: Seq<u8>, i: int) -> bool {
    exists|p: Seq<u8>| #[trigger] gcm_seal(key, page_nonce(prefix, i), p) == page_ct(img, i)
}

/// The plaintext of page `i`: zeros past the end of the image, the unsealed
/// ciphertext when it authenticates, `None` otherwise.
pub open spec fn page_plain(img: Seq<u8>, key: Seq<u8>, prefix: Seq<u8>, i: int) -> Option<Seq<u8>> {
    if !stored(img, i) {
        Some(zeros(PAGE_SIZE as nat))
    } else if decodable(img, key, prefix, i) {
        Some(choose|p: Seq<u8>| #[trigger] gcm_seal(key, page_nonce(prefix, i), p) == page_ct(img, i))
    } else {
        None
    }
}

/// The logical byte at `pos`, or `None` when its page does not authenticate.
pub open spec fn byte_at(img: Seq<u8>, key: Seq<u8>, prefix: Seq<u8>, pos: int) -> Option<u8> {
    match page_plain(img, key, prefix, pos / PAGE_SIZE as int) {
        Some(p) => Some(p[pos % PAGE_SIZE as int]),
        None => None,
    }
}

/// An encrypted storage image with its key.
pub struct EncryptedBackend {
    image: Vec<u8>,
    key: Vec<u8>,
    nonce_prefix: Vec<u8>,
    logical_len: u64,
}

impl EncryptedBackend {
    pub closed spec fn img(&self) -> Seq<u8> { self.image@ }
    pub closed spec fn key(&self) -> Seq<u8> { self.key@ }
    pub closed spec fn prefix(&self) -> Seq<u8> { self.nonce_prefix@ }
    pub closed spec fn logical(&self) -> nat { self.logical_len as nat }

    /// The logical byte at `pos`.
    pub open spec fn byte(&self, pos: int) -> Option<u8> {
        byte_at(self.img(), self.key(), self.prefix(), pos)
    }

    /// Header and sizes are consistent.
    pub closed spec fn wf(&self) -> bool {
        &&& self.key@.len() == KEY_SIZE
        &&& self.nonce_prefix@.len() == 8
        &&& HEADER_SIZE <= self.image@.len() <= HEADER_SIZE + (MAX_LOGICAL / PAGE_SIZE as u64 + 1) * ENCRYPTED_PAGE
        &&& self.image@.subrange(0, 8) == magic()
        &&& self.image@.subrange(8, 16) == self.nonce_prefix@
        &&& self.image@.subrange(16, 24) == le_bytes(self.logical_len as nat, 8)
    }
}


/// `img` with `bytes` written at `at`, zero-filling any gap past its end (as
/// a positioned file write does).
pub open spec fn store(img: Seq<u8>, at: int, bytes: Seq<u8>) -> Seq<u8> {
    let len = if img.len() >= at + bytes.len() { img.len() as int } else { at + bytes.len() };
    Seq::new(len as nat, |b: int| if at <= b < at + bytes.len() { bytes[b - at] } else if b < img.len() { img[b] } else { 0u8 })
}

/// Image bytes outside the pages `lo..=hi` (and outside the length field of
/// the header) are those of `old`, or zero where `new` grew past `old`.
pub open spec fn same_outside(old: Seq<u8>, new: Seq<u8>, lo: int, hi: int) -> bool {
    &&& new.len() == (if hi < lo || old.len() >= phys(hi) + ENCRYPTED_PAGE { old.len() as int } else { phys(hi) + ENCRYPTED_PAGE })
    &&& forall|b: int| 0 <= b < new.len() && !(16 <= b < 24) && !(hi >= lo && phys(lo) <= b < phys(hi) + ENCRYPTED_PAGE)
        ==> #[trigger] new[b] == (if b < old.len() { old[b] } else { 0u8 })
}

fn store_bytes(img: &mut Vec<u8>, at: usize, bytes: &Vec<u8>)
    requires
        at + bytes.len() <= usize::MAX,
    ensures
        final(img)@ == store(old(img)@, at as int, bytes@),
{
    let end = at + bytes.len();
    if img.len() < end {
        img.resize(end, 0u8);
    }
    let ghost grown = img@;
    assert(forall|b: int| 0 <= b < grown.len() ==> #[trigger] grown[b] == (if b < old(img)@.len() { old(img)@[b] } else { 0u8 }));
    let mut i: usize = 0;
    while i < bytes.len()
        invariant
            end == at + bytes.len(),
            img@.len() == grown.len(),
            grown.len() >= end,
            forall|b: int| 0 <= b < grown.len() ==> #[trigger] grown[b] == (if b < old(img)@.len() { old(img)@[b] } else { 0u8 }),
            grown.len() == store(old(img)@, at as int, bytes@).len(),
            i <= bytes.len(),
            forall|b: int| 0 <= b < img@.len() ==> #[trigger] img@[b] == (if at <= b < at + i { bytes@[b - at] } else { grown[b] }),
        decreases bytes.len() - i,
    {
        img.set(at + i, bytes[i]);
        i += 1;
    }
    assert(img@ =~= store(old(img)@, at as int, bytes@));
}

/// Builds the nonce of page `i`.
fn make_nonce(prefix: &Vec<u8>, page_index: u64) -> (n: Vec<u8>)
    requires
        prefix.len() == 8,
    ensures
        n@ == page_nonce(prefix@, page_index as int),
        n.len() == NONCE_SIZE,
{
    let v = page_index % 0x1_0000_0000;
    let mut n: Vec<u8> = Vec::new();
    let mut i: usize = 0;
    while i < 8
        invariant
            i <= 8,
            prefix.len() == 8,
            n@ == prefix@.take(i as int),
        decreases 8 - i,
    {
        n.push(prefix[i]);
        assert(prefix@.take(i + 1) =~= prefix@.take(i as int).push(prefix@[i as int]));
        i += 1;
    }
    n.push((v % 256) as u8);
    n.push((v / 256 % 256) as u8);
    n.push((v / 256 / 256 % 256) as u8);
    n.push((v / 256 / 256 / 256 % 256) as u8);
    proof {
        reveal_with_fuel(le_bytes, 5);
    }
    assert(prefix@.take(8) =~= prefix@);
    assert(n@ =~= page_nonce(prefix@, page_index as int));
    n
}

/// Little-endian encoding of a u64.
fn u64_le(v: u64) -> (r: Vec<u8>)
    ensures
        r@ == le_bytes(v as nat, 8),
        r.len() == 8,
{
    let mut r: Vec<u8> = Vec::new();
    let mut x = v;
    let mut i: usize = 0;
    while i < 8
        invariant
            i <= 8,
            r.len() == i,
            r@ + le_bytes(x as nat, (8 - i) as nat) == le_bytes(v as nat, 8),
        decreases 8 - i,
    {
        let ghost before = r@;
        r.push((x % 256) as u8);
        assert(le_bytes(x as nat, (8 - i) as nat) == seq![(x % 256) as u8] + le_bytes((x / 256) as nat, (8 - i - 1) as nat));
        assert(r@ + le_bytes((x / 256) as nat, (8 - i - 1) as nat) =~= before + le_bytes(x as nat, (8 - i) as nat));
        x = x / 256;
        i += 1;
    }
    assert(r@ =~= r@ + le_bytes(x as nat, 0));
    r
}

/// The value of 8 little-endian bytes.
pub open spec fn le_value(b: Seq<u8>) -> nat
    decreases b.len(),
{
    if b.len() == 0 { 0 } else { b[0] as nat + 256 * le_value(b.skip(1)) }
}

proof fn lemma_le_roundtrip(b: Seq<u8>)
    ensures
        le_bytes(le_value(b), b.len()) == b,
        le_value(b) < pow256(b.len()),
    decreases b.len(),
{
    if b.len() > 0 {
        lemma_le_roundtrip(b.skip(1));
        let v = le_value(b);
        let t = le_value(b.skip(1));
        assert(v % 256 == b[0] as nat && v / 256 == t) by (nonlinear_arith)
            requires v == b[0] as nat + 256 * t, b[0] < 256;
        assert(le_bytes(v, b.len()) =~= seq![(v % 256) as u8] + le_bytes(t, (b.len() - 1) as nat));
        assert(seq![b[0]] + b.skip(1) =~= b);
        assert(v < pow256(b.len())) by (nonlinear_arith)
            requires v == b[0] as nat + 256 * t, b[0] < 256, t < pow256((b.len() - 1) as nat),
                pow256(b.len()) == 256 * pow256((b.len() - 1) as nat);
    }
}

/// Bytes are below the matching power of 256.
pub proof fn lemma_le_bound(b: Seq<u8>)
    ensures
        le_value(b) < pow256(b.len()),
{
    lemma_le_roundtrip(b);
}

/// Powers of 256 grow with the exponent.
pub proof fn lemma_pow256_mono(a: nat, b: nat)
    requires
        a <= b,
    ensures
        pow256(a) <= pow256(b),
    decreases b,
{
    if a < b {
        lemma_pow256_mono(a, (b - 1) as nat);
    }
}

pub open spec fn pow256(n: nat) -> nat
    decreases n,
{
    if n == 0 { 1 } else { 256 * pow256((n - 1) as nat) }
}

/// Reads a little-endian u64 from 8 bytes.
fn read_u64_le(b: &[u8]) -> (r: u64)
    requires
        b.len() == 8,
    ensures
        le_bytes(r as nat, 8) == b@,
{
    proof {
        lemma_le_roundtrip(b@);
        reveal_with_fuel(pow256, 9);
    }
    let mut v: u64 = 0;
    let mut i: usize = 8;
    while i > 0
        invariant
            i <= 8,
            b.len() == 8,
            v as nat == le_value(b@.skip(i as int)),
            le_value(b@.skip(i as int)) < pow256((8 - i) as nat),
        decreases i,
    {
        i -= 1;
        proof {
            lemma_le_roundtrip(b@.skip(i as int));
            assert(b@.skip(i as int).skip(1) =~= b@.skip(i + 1));
            reveal_with_fuel(pow256, 9);
        }
        assert(v as nat * 256 + b@[i as int] < pow256((8 - i) as nat)) by (nonlinear_arith)
            requires v < pow256((8 - i - 1) as nat), b@[i as int] < 256, pow256((8 - i) as nat) == 256 * pow256((8 - i - 1) as nat);
        v = b[i] as u64 + 256 * v;
    }
    assert(b@.skip(0) =~= b@);
    v
}


/// The decoded page `i` of an image.
fn decrypt_page(img: &Vec<u8>, key: &Vec<u8>, prefix: &Vec<u8>, i: u64) -> (r: Result<Vec<u8>, StorageError>)
    requires
        key.len() == KEY_SIZE,
        prefix.len() == 8,
        phys(i as int) + ENCRYPTED_PAGE <= usize::MAX,
    ensures
        r matches Ok(p) ==> page_plain(img@, key@, prefix@, i as int) == Some(p@) && p.len() == PAGE_SIZE,
        r is Err ==> page_plain(img@, key@, prefix@, i as int) is None && r == Err::<Vec<u8>, StorageError>(StorageError::DecryptionFailed),
{
    let phys_off: usize = HEADER_SIZE + (i as usize) * ENCRYPTED_PAGE;
    if phys_off + ENCRYPTED_PAGE > img.len() {
        let z: Vec<u8> = vec![0u8; PAGE_SIZE];
        assert(z@ =~= zeros(PAGE_SIZE as nat));
        return Ok(z);
    }
    let nonce = make_nonce(prefix, i);
    let ct = vstd::slice::slice_subrange(img.as_slice(), phys_off, phys_off + ENCRYPTED_PAGE);
    assert(ct@ == page_ct(img@, i as int));
    match aes_open(key.as_slice(), nonce.as_slice(), ct) {
        Some(p) => {
            let ghost c = choose|q: Seq<u8>| #[trigger] gcm_seal(key@, page_nonce(prefix@, i as int), q) == page_ct(img@, i as int);
            assert(gcm_seal(key@, page_nonce(prefix@, i as int), p@) == page_ct(img@, i as int));
            assert(decodable(img@, key@, prefix@, i as int));
            assert(gcm_seal(key@, nonce@, c) == ct@);
            Ok(p)
        },
        None => {
            assert(!decodable(img@, key@, prefix@, i as int)) by {
                if decodable(img@, key@, prefix@, i as int) {
                    let q = choose|q: Seq<u8>| #[trigger] gcm_seal(key@, page_nonce(prefix@, i as int), q) == page_ct(img@, i as int);
                    assert(gcm_seal(key@, nonce@, q) == ct@);
                }
            }
            Err(StorageError::DecryptionFailed)
        },
    }
}

/// Seals `page` as page `i` of the image.
fn encrypt_page(img: &mut Vec<u8>, key: &Vec<u8>, prefix: &Vec<u8>, i: u64, page: &Vec<u8>)
    requires
        key.len() == KEY_SIZE,
        prefix.len() == 8,
        page.len() == PAGE_SIZE,
        phys(i as int) + ENCRYPTED_PAGE <= usize::MAX,
    ensures
        final(img)@ == store(old(img)@, phys(i as int), gcm_seal(key@, page_nonce(prefix@, i as int), page@)),
        gcm_seal(key@, page_nonce(prefix@, i as int), page@).len() == ENCRYPTED_PAGE,
        forall|p: Seq<u8>| #[trigger] gcm_seal(key@, page_nonce(prefix@, i as int), p)
            == gcm_seal(key@, page_nonce(prefix@, i as int), page@) ==> p == page@,
{
    let nonce = make_nonce(prefix, i);
    let ct = aes_seal(key.as_slice(), nonce.as_slice(), page.as_slice());
    match ct {
        Some(c) => {
            let phys_off: usize = HEADER_SIZE + (i as usize) * ENCRYPTED_PAGE;
            store_bytes(img, phys_off, &c);
        },
        None => {
            assert(false);
        },
    }
}

/// Effect of storing a sealed page on the pages of an image.
proof fn lemma_store_page(img: Seq<u8>, key: Seq<u8>, prefix: Seq<u8>, i: int, pt: Seq<u8>)
    requires
        0 <= i,
        gcm_seal(key, page_nonce(prefix, i), pt).len() == ENCRYPTED_PAGE,
        forall|p: Seq<u8>| #[trigger] gcm_seal(key, page_nonce(prefix, i), p)
            == gcm_seal(key, page_nonce(prefix, i), pt) ==> p == pt,
    ensures
        page_plain(store(img, phys(i), gcm_seal(key, page_nonce(prefix, i), pt)), key, prefix, i) == Some(pt),
        forall|j: int| 0 <= j && j != i && stored(img, j) ==>
            page_ct(#[trigger] store(img, phys(i), gcm_seal(key, page_nonce(prefix, i), pt)), j) == page_ct(img, j),
{
    let ct = gcm_seal(key, page_nonce(prefix, i), pt);
    let new = store(img, phys(i), ct);
    assert(page_ct(new, i) =~= ct);
    assert(stored(new, i));
    assert(decodable(new, key, prefix, i));
    assert forall|j: int| 0 <= j && j != i && stored(img, j) implies
        page_ct(#[trigger] store(img, phys(i), gcm_seal(key, page_nonce(prefix, i), pt)), j) == page_ct(img, j) by {
        if j < i {
            assert(phys(j) + ENCRYPTED_PAGE <= phys(i)) by (nonlinear_arith) requires j < i;
        } else {
            assert(phys(i) + ENCRYPTED_PAGE <= phys(j)) by (nonlinear_arith) requires j > i;
        }
        assert(page_ct(new, j) =~= page_ct(img, j));
    }
}


/// Pages `first..=last` of a write of `n` bytes at `o` (none when `n == 0`).
pub open spec fn touched(o: int, n: int, j: int) -> bool {
    n > 0 && o / PAGE_SIZE as int <= j <= (o + n - 1) / PAGE_SIZE as int
}

/// The last page a write of `n` bytes at `o` touches (one before the first
/// when it touches none).
pub open spec fn last_page(o: int, n: int) -> int {
    if n == 0 { o / PAGE_SIZE as int - 1 } else { (o + n - 1) / PAGE_SIZE as int }
}

pub open spec fn max(a: int, b: int) -> int {
    if a >= b { a } else { b }
}

/// What a successful `write` of `d` at `o` does: the written bytes read back,
/// other bytes of the touched pages keep their value, image bytes outside the
/// touched pages are unchanged (or zero where the image grew), and the
/// logical length covers the write.
pub open spec fn write_effect(old: EncryptedBackend, new: EncryptedBackend, o: int, d: Seq<u8>) -> bool {
    &&& forall|q: int| o <= q < o + d.len() ==> #[trigger] new.byte(q) == Some(d[q - o])
    &&& forall|q: int| 0 <= q && !(o <= q < o + d.len()) && touched(o, d.len() as int, q / PAGE_SIZE as int)
        ==> #[trigger] new.byte(q) == old.byte(q)
    &&& same_outside(old.img(), new.img(), o / PAGE_SIZE as int, last_page(o, d.len() as int))
    &&& new.logical() == max(old.logical() as int, o + d.len())
}

/// Equal stored ciphertexts give equal plaintexts.
proof fn lemma_same_page(img1: Seq<u8>, img2: Seq<u8>, key: Seq<u8>, prefix: Seq<u8>, j: int)
    requires
        stored(img1, j) == stored(img2, j),
        stored(img1, j) ==> page_ct(img1, j) == page_ct(img2, j),
    ensures
        page_plain(img1, key, prefix, j) == page_plain(img2, key, prefix, j),
{
}

/// A header update leaves every page as it was.
proof fn lemma_header_store(img: Seq<u8>, bytes: Seq<u8>, key: Seq<u8>, prefix: Seq<u8>)
    requires
        img.len() >= HEADER_SIZE,
        bytes.len() == 8,
    ensures
        store(img, 16, bytes).len() == img.len(),
        store(img, 16, bytes).subrange(0, 16) == img.subrange(0, 16),
        store(img, 16, bytes).subrange(16, 24) == bytes,
        store(img, 16, bytes).subrange(24, 64) == img.subrange(24, 64),
        forall|j: int| 0 <= j ==> #[trigger] page_plain(store(img, 16, bytes), key, prefix, j) == page_plain(img, key, prefix, j),
        forall|b: int| 0 <= b < img.len() && !(16 <= b < 24) ==> #[trigger] store(img, 16, bytes)[b] == img[b],
{
    let new = store(img, 16, bytes);
    assert(new.subrange(0, 16) =~= img.subrange(0, 16));
    assert(new.subrange(16, 24) =~= bytes);
    assert(new.subrange(24, 64) =~= img.subrange(24, 64));
    assert forall|j: int| 0 <= j implies #[trigger] page_plain(new, key, prefix, j) == page_plain(img, key, prefix, j) by {
        if stored(img, j) {
            assert(page_ct(new, j) =~= page_ct(img, j));
        }
        lemma_same_page(new, img, key, prefix, j);
    }
}

impl EncryptedBackend {
    /// Opens an image with a given key, using `fresh_prefix` as the nonce
    /// prefix when the image is empty (a new file gets a fresh header).
    pub fn open_with_prefix(image: Vec<u8>, key: &[u8], fresh_prefix: &[u8]) -> (r: Result<Self, CryptoError>)
        requires
            fresh_prefix.len() == 8,
            image.len() <= HEADER_SIZE + (MAX_LOGICAL / PAGE_SIZE as u64 + 1) * ENCRYPTED_PAGE,
        ensures
            key.len() != KEY_SIZE ==> r matches Err(CryptoError::InvalidKey),
            key.len() == KEY_SIZE && image.len() == 0 ==> (r matches Ok(b) && b.wf() && b.key() == key@
                && b.prefix() == fresh_prefix@ && b.logical() == 0
                && b.img() == magic() + fresh_prefix@ + le_bytes(0, 8) + zeros(40)),
            key.len() == KEY_SIZE && 0 < image.len() < HEADER_SIZE ==> r matches Err(CryptoError::Io(_)),
            key.len() == KEY_SIZE && image.len() >= HEADER_SIZE && image@.subrange(0, 8) != magic()
                ==> r matches Err(CryptoError::InvalidFile),
            key.len() == KEY_SIZE && image.len() >= HEADER_SIZE && image@.subrange(0, 8) == magic()
                ==> (r matches Ok(b) && b.wf() && b.key() == key@ && b.img() == image@
                    && b.prefix() == image@.subrange(8, 16) && b.logical() == le_value(image@.subrange(16, 24))),
    {
        if key.len() != KEY_SIZE {
            return Err(CryptoError::InvalidKey);
        }
        let key_v = vstd::slice::slice_to_vec(key);
        if image.len() == 0 {
            let mut header: Vec<u8> = Vec::new();
            let m = magic_bytes();
            let mut i: usize = 0;
            while i < 8
                invariant i <= 8, m@ == magic(), header@ == m@.take(i as int),
                decreases 8 - i,
            {
                header.push(m[i]);
                assert(m@.take(i + 1) =~= m@.take(i as int).push(m@[i as int]));
                i += 1;
            }
            let prefix = vstd::slice::slice_to_vec(fresh_prefix);
            let mut j: usize = 0;
            while j < 8
                invariant j <= 8, prefix.len() == 8, header@ == magic() + prefix@.take(j as int),
                decreases 8 - j,
            {
                header.push(prefix[j]);
                assert(magic() + prefix@.take(j + 1) =~= (magic() + prefix@.take(j as int)).push(prefix@[j as int]));
                j += 1;
            }
            let lenb = u64_le(0);
            let mut k: usize = 0;
            while k < 8
                invariant k <= 8, lenb.len() == 8, prefix.len() == 8,
                    header@ == magic() + prefix@ + lenb@.take(k as int),
                decreases 8 - k,
            {
                header.push(lenb[k]);
                assert(magic() + prefix@ + lenb@.take(k + 1) =~= (magic() + prefix@ + lenb@.take(k as int)).push(lenb@[k as int]));
                k += 1;
            }
            let mut z: usize = 0;
            while z < 40
                invariant z <= 40, lenb.len() == 8, prefix.len() == 8,
                    header@ == magic() + prefix@ + lenb@ + zeros(z as nat),
                decreases 40 - z,
            {
                header.push(0u8);
                assert(magic() + prefix@ + lenb@ + zeros((z + 1) as nat) =~= (magic() + prefix@ + lenb@ + zeros(z as nat)).push(0u8));
                z += 1;
            }
            assert(prefix@.take(8) =~= prefix@);
            assert(lenb@.take(8) =~= lenb@);
            let b = EncryptedBackend { image: header, key: key_v, nonce_prefix: prefix, logical_len: 0 };
            assert(b.image@.subrange(0, 8) =~= magic());
            assert(b.image@.subrange(8, 16) =~= prefix@);
            assert(b.image@.subrange(16, 24) =~= lenb@);
            return Ok(b);
        }
        if image.len() < HEADER_SIZE {
            return Err(CryptoError::Io(crate::text::to_owned("failed to fill whole buffer")));
        }
        let m = magic_bytes();
        let mut i: usize = 0;
        while i < 8
            invariant i <= 8, m@ == magic(), image.len() >= HEADER_SIZE, key.len() == KEY_SIZE,
                forall|t: int| 0 <= t < i ==> image@[t] == m@[t],
            decreases 8 - i,
        {
            if image[i] != m[i] {
                assert(image@.subrange(0, 8)[i as int] != magic()[i as int]);
                return Err(CryptoError::InvalidFile);
            }
            i += 1;
        }
        assert(image@.subrange(0, 8) =~= magic());
        let prefix = vstd::slice::slice_to_vec(vstd::slice::slice_subrange(image.as_slice(), 8, 16));
        let len = read_u64_le(vstd::slice::slice_subrange(image.as_slice(), 16, 24));
        proof { lemma_le_roundtrip(image@.subrange(16, 24)); reveal_with_fuel(pow256, 9); }
        assert(len as nat == le_value(image@.subrange(16, 24))) by {
            lemma_le_injective(len as nat, le_value(image@.subrange(16, 24)), 8);
        }
        Ok(EncryptedBackend { image, key: key_v, nonce_prefix: prefix, logical_len: len })
    }

    /// The logical length of the stored data.
    pub fn len(&self) -> (r: u64)
        ensures
            r as nat == self.logical(),
    {
        self.logical_len
    }

    /// The encrypted image (header and sealed pages).
    pub fn image(&self) -> (r: &Vec<u8>)
        ensures
            r@ == self.img(),
    {
        &self.image
    }

    /// Sets the logical length, recording it in the header.
    pub fn set_len(&mut self, len: u64)
        requires
            old(self).wf(),
        ensures
            final(self).wf(),
            final(self).logical() == len,
            final(self).key() == old(self).key(),
            final(self).prefix() == old(self).prefix(),
            forall|q: int| 0 <= q ==> #[trigger] final(self).byte(q) == old(self).byte(q),
            forall|b: int| 0 <= b < old(self).img().len() && !(16 <= b < 24) ==> #[trigger] final(self).img()[b] == old(self).img()[b],
            final(self).img().len() == old(self).img().len(),
    {
        let bytes = u64_le(len);
        let ghost old_img = self.image@;
        proof { lemma_header_store(self.image@, bytes@, self.key@, self.nonce_prefix@); }
        store_bytes(&mut self.image, 16, &bytes);
        self.logical_len = len;
        assert(self.image@.subrange(0, 8) =~= old_img.subrange(0, 8)) by {
            assert(self.image@.subrange(0, 16).subrange(0, 8) =~= self.image@.subrange(0, 8));
            assert(old_img.subrange(0, 16).subrange(0, 8) =~= old_img.subrange(0, 8));
        }
        assert(self.image@.subrange(8, 16) =~= old_img.subrange(8, 16)) by {
            assert(self.image@.subrange(0, 16).subrange(8, 16) =~= self.image@.subrange(8, 16));
            assert(old_img.subrange(0, 16).subrange(8, 16) =~= old_img.subrange(8, 16));
        }
    }

    /// Reads `len` logical bytes starting at `offset`.
    pub fn read(&self, offset: u64, len: usize) -> (r: Result<Vec<u8>, StorageError>)
        requires
            self.wf(),
            offset + len <= MAX_LOGICAL,
        ensures
            r matches Ok(v) ==> v.len() == len && forall|j: int| 0 <= j < len ==> self.byte(offset + j) == Some(#[trigger] v@[j]),
            r is Err ==> r == Err::<Vec<u8>, StorageError>(StorageError::DecryptionFailed)
                && exists|q: int| offset <= q < offset + len && #[trigger] self.byte(q) is None,
    {
        let mut out: Vec<u8> = Vec::new();
        let mut pos: usize = 0;
        while pos < len
            invariant
                self.wf(),
                offset + len <= MAX_LOGICAL,
                pos <= len,
                out.len() == pos,
                forall|j: int| 0 <= j < pos ==> self.byte(offset + j) == Some(#[trigger] out@[j]),
            decreases len - pos,
        {
            let abs: u64 = offset + pos as u64;
            let page_idx: u64 = abs / PAGE_SIZE as u64;
            let oip: usize = (abs % PAGE_SIZE as u64) as usize;
            let avail: usize = PAGE_SIZE - oip;
            let needed: usize = if len - pos < avail { len - pos } else { avail };
            assert(phys(page_idx as int) + ENCRYPTED_PAGE <= usize::MAX) by (nonlinear_arith)
                requires page_idx == abs / 4096, abs <= MAX_LOGICAL;
            let page = match decrypt_page(&self.image, &self.key, &self.nonce_prefix, page_idx) {
                Ok(p) => p,
                Err(e) => {
                    assert(self.byte(abs as int) is None);
                    return Err(e);
                },
            };
            let mut k: usize = 0;
            while k < needed
                invariant
                    self.wf(),
                    page.len() == PAGE_SIZE,
                    page_plain(self.img(), self.key(), self.prefix(), page_idx as int) == Some(page@),
                    oip + needed <= PAGE_SIZE,
                    abs == offset + pos,
                    page_idx == abs / 4096,
                    oip == abs % 4096,
                    pos + needed <= len,
                    k <= needed,
                    out.len() == pos + k,
                    forall|j: int| 0 <= j < pos + k ==> self.byte(offset + j) == Some(#[trigger] out@[j]),
                decreases needed - k,
            {
                out.push(page[oip + k]);
                assert((offset + pos + k) / 4096 == page_idx && (offset + pos + k) % 4096 == oip + k) by (nonlinear_arith)
                    requires page_idx == abs / 4096, oip == abs % 4096, abs == offset + pos, oip + k < 4096;
                assert(self.byte(offset + pos + k) == Some(out@[pos + k]));
                k += 1;
            }
            pos += needed;
        }
        Ok(out)
    }
}

impl EncryptedBackend {
    /// Writes `data` at logical `offset`: each touched page is decrypted
    /// (unless it is overwritten whole), patched, and sealed again; the
    /// logical length grows to cover the write.
    #[verifier::rlimit(40)]
    pub fn write(&mut self, offset: u64, data: &[u8]) -> (r: Result<(), StorageError>)
        requires
            old(self).wf(),
            offset + data.len() <= MAX_LOGICAL,
        ensures
            final(self).wf(),
            final(self).key() == old(self).key(),
            final(self).prefix() == old(self).prefix(),
            r is Ok ==> write_effect(*old(self), *final(self), offset as int, data@),
            r is Err ==> r == Err::<(), StorageError>(StorageError::DecryptionFailed)
                && exists|q: int| offset <= q < offset + data.len() && #[trigger] old(self).byte(q) is None,
    {
        let ghost old_self = *self;
        let n = data.len();
        let first: u64 = offset / PAGE_SIZE as u64;
        let mut pos: usize = 0;
        assert(same_outside(old_self.img(), self.img(), first as int, first - 1));
        while pos < n
            invariant
                self.wf(),
                self.key() == old_self.key(),
                self.prefix() == old_self.prefix(),
                self.logical() == old_self.logical(),
                self.img().subrange(0, 64) == old_self.img().subrange(0, 64),
                old_self.wf(),
                old_self == *old(self),
                n == data.len(),
                offset + n <= MAX_LOGICAL,
                first == offset / 4096,
                pos <= n,
                pos > 0 ==> ((offset + pos) % 4096 == 0 || pos == n),
                forall|q: int| offset <= q < offset + pos ==> #[trigger] self.byte(q) == Some(data@[q - offset]),
                forall|q: int| 0 <= q && !(offset <= q < offset + pos) && touched(offset as int, pos as int, q / 4096)
                    ==> #[trigger] self.byte(q) == old_self.byte(q),
                same_outside(old_self.img(), self.img(), first as int, last_page(offset as int, pos as int)),
            decreases n - pos,
        {
            let abs: u64 = offset + pos as u64;
            let page_idx: u64 = abs / PAGE_SIZE as u64;
            let oip: usize = (abs % PAGE_SIZE as u64) as usize;
            let avail: usize = PAGE_SIZE - oip;
            let needed: usize = if n - pos < avail { n - pos } else { avail };
            assert(phys(page_idx as int) + ENCRYPTED_PAGE <= usize::MAX) by (nonlinear_arith)
                requires page_idx == abs / 4096, abs <= MAX_LOGICAL;
            proof { self.lemma_next_page_untouched(old_self, offset as int, pos as int, n as int); }
            let mut page = if oip == 0 && needed == PAGE_SIZE {
                let z: Vec<u8> = vec![0u8; PAGE_SIZE];
                z
            } else {
                match decrypt_page(&self.image, &self.key, &self.nonce_prefix, page_idx) {
                    Ok(p) => p,
                    Err(e) => {
                        assert(old_self.byte(abs as int) is None);
                        return Err(e);
                    },
                }
            };
            let ghost before = page@;
            let mut k: usize = 0;
            while k < needed
                invariant
                    page.len() == PAGE_SIZE,
                    oip + needed <= PAGE_SIZE,
                    pos + needed <= n,
                    n == data.len(),
                    k <= needed,
                    before.len() == PAGE_SIZE,
                    forall|t: int| 0 <= t < PAGE_SIZE ==> #[trigger] page@[t] == (if oip <= t < oip + k { data@[pos + t - oip] } else { before[t] }),
                decreases needed - k,
            {
                page.set(oip + k, data[pos + k]);
                k += 1;
            }
            let ghost cur = self.img();
            assert(forall|q: int| offset <= q < offset + pos ==> #[trigger] byte_at(cur, self.key(), self.prefix(), q) == Some(data@[q - offset])) by {
                assert forall|q: int| offset <= q < offset + pos implies #[trigger] byte_at(cur, self.key(), self.prefix(), q) == Some(data@[q - offset]) by {
                    assert(self.byte(q) == Some(data@[q - offset]));
                }
            }
            assert(forall|q: int| 0 <= q && !(offset <= q < offset + pos) && touched(offset as int, pos as int, q / 4096)
                ==> #[trigger] byte_at(cur, self.key(), self.prefix(), q) == old_self.byte(q)) by {
                assert forall|q: int| 0 <= q && !(offset <= q < offset + pos) && touched(offset as int, pos as int, q / 4096)
                    implies #[trigger] byte_at(cur, self.key(), self.prefix(), q) == old_self.byte(q) by {
                    assert(self.byte(q) == old_self.byte(q));
                }
            }
            encrypt_page(&mut self.image, &self.key, &self.nonce_prefix, page_idx, &page);
            proof {
                lemma_store_page(cur, self.key(), self.prefix(), page_idx as int, page@);
                self.lemma_after_page(old_self, cur, offset as int, pos as int, needed as int, n as int, data@, before, page@);
                assert(self.img().subrange(0, 8) =~= self.img().subrange(0, 64).subrange(0, 8));
                assert(self.img().subrange(8, 16) =~= self.img().subrange(0, 64).subrange(8, 16));
                assert(self.img().subrange(16, 24) =~= self.img().subrange(0, 64).subrange(16, 24));
                assert(cur.subrange(0, 8) =~= cur.subrange(0, 64).subrange(0, 8));
                assert(cur.subrange(8, 16) =~= cur.subrange(0, 64).subrange(8, 16));
                assert(cur.subrange(16, 24) =~= cur.subrange(0, 64).subrange(16, 24));
                assert(phys(page_idx as int) + ENCRYPTED_PAGE <= HEADER_SIZE + (MAX_LOGICAL / PAGE_SIZE as u64 + 1) * ENCRYPTED_PAGE) by (nonlinear_arith)
                    requires page_idx == abs / 4096, abs < MAX_LOGICAL;
            }
            pos += needed;
        }
        let end: u64 = offset + n as u64;
        let ghost mid = *self;
        if end > self.logical_len {
            self.set_len(end);
        }
        proof {
            assert forall|q: int| offset <= q < offset + n implies #[trigger] self.byte(q) == Some(data@[q - offset]) by {
                assert(mid.byte(q) == Some(data@[q - offset]));
            }
            assert forall|q: int| 0 <= q && !(offset <= q < offset + n) && touched(offset as int, n as int, q / 4096)
                implies #[trigger] self.byte(q) == old_self.byte(q) by {
                assert(mid.byte(q) == old_self.byte(q));
            }
            assert forall|b: int| 0 <= b < self.img().len() && !(16 <= b < 24)
                && !(last_page(offset as int, n as int) >= first && phys(first as int) <= b < phys(last_page(offset as int, n as int)) + ENCRYPTED_PAGE)
                implies #[trigger] self.img()[b] == (if b < old_self.img().len() { old_self.img()[b] } else { 0u8 }) by {
                assert(mid.img()[b] == self.img()[b]);
            }
        }
        Ok(())
    }

    /// The next page of a write has not been touched yet, so it decodes as
    /// it did before the write.
    proof fn lemma_next_page_untouched(&self, old_self: EncryptedBackend, o: int, pos: int, n: int)
        requires
            old_self.wf(),
            self.key() == old_self.key(),
            self.prefix() == old_self.prefix(),
            0 <= o,
            0 <= pos < n,
            pos > 0 ==> ((o + pos) % 4096 == 0 || pos == n),
            same_outside(old_self.img(), self.img(), o / 4096, last_page(o, pos)),
        ensures
            page_plain(self.img(), self.key(), self.prefix(), (o + pos) / 4096)
                == page_plain(old_self.img(), old_self.key(), old_self.prefix(), (o + pos) / 4096),
            forall|q: int| (o + pos) / 4096 == q / 4096 ==> #[trigger] self.byte(q) == old_self.byte(q),
    {
        let p = (o + pos) / 4096;
        let lo = o / 4096;
        let hi = last_page(o, pos);
        assert(hi < p && lo <= p) by (nonlinear_arith)
            requires p == (o + pos) / 4096, lo == o / 4096, hi == (if pos == 0 { o / 4096 - 1 } else { (o + pos - 1) / 4096 }),
                pos > 0 ==> (o + pos) % 4096 == 0, 0 <= o, 0 <= pos;
        if hi >= lo {
            assert(phys(hi) + ENCRYPTED_PAGE <= phys(p)) by (nonlinear_arith) requires hi < p;
        }
        if stored(old_self.img(), p) {
            assert(page_ct(self.img(), p) =~= page_ct(old_self.img(), p));
        }
        lemma_same_page(self.img(), old_self.img(), self.key(), self.prefix(), p);
    }

    /// One page step of `write` keeps the loop's facts.
    proof fn lemma_after_page(&self, old_self: EncryptedBackend, cur: Seq<u8>, o: int, pos: int, needed: int,
        n: int, d: Seq<u8>, before: Seq<u8>, page: Seq<u8>)
        requires
            old_self.wf(),
            self.key() == old_self.key(),
            self.prefix() == old_self.prefix(),
            0 <= o,
            0 <= pos < n,
            n == d.len(),
            pos > 0 ==> ((o + pos) % 4096 == 0 || pos == n),
            needed == (if n - pos < 4096 - (o + pos) % 4096 { n - pos } else { 4096 - (o + pos) % 4096 }),
            self.img() == store(cur, phys((o + pos) / 4096), gcm_seal(self.key(), page_nonce(self.prefix(), (o + pos) / 4096), page)),
            page_plain(self.img(), self.key(), self.prefix(), (o + pos) / 4096) == Some(page),
            forall|j: int| 0 <= j && j != (o + pos) / 4096 && stored(cur, j) ==>
                page_ct(#[trigger] store(cur, phys((o + pos) / 4096), gcm_seal(self.key(), page_nonce(self.prefix(), (o + pos) / 4096), page)), j) == page_ct(cur, j),
            gcm_seal(self.key(), page_nonce(self.prefix(), (o + pos) / 4096), page).len() == ENCRYPTED_PAGE,
            before.len() == 4096,
            page.len() == 4096,
            !((o + pos) % 4096 == 0 && needed == 4096) ==> Some(before) == page_plain(old_self.img(), old_self.key(), old_self.prefix(), (o + pos) / 4096),
            forall|t: int| 0 <= t < 4096 ==> #[trigger] page[t] == (if (o + pos) % 4096 <= t < (o + pos) % 4096 + needed { d[pos + t - (o + pos) % 4096] } else { before[t] }),
            forall|q: int| o <= q < o + pos ==> #[trigger] byte_at(cur, self.key(), self.prefix(), q) == Some(d[q - o]),
            forall|q: int| 0 <= q && !(o <= q < o + pos) && touched(o, pos, q / 4096)
                ==> #[trigger] byte_at(cur, self.key(), self.prefix(), q) == old_self.byte(q),
            same_outside(old_self.img(), cur, o / 4096, last_page(o, pos)),
            cur.len() >= 64,
        ensures
            forall|q: int| o <= q < o + pos + needed ==> #[trigger] self.byte(q) == Some(d[q - o]),
            forall|q: int| 0 <= q && !(o <= q < o + pos + needed) && touched(o, pos + needed, q / 4096)
                ==> #[trigger] self.byte(q) == old_self.byte(q),
            same_outside(old_self.img(), self.img(), o / 4096, last_page(o, pos + needed)),
            self.img().subrange(0, 64) == cur.subrange(0, 64),
            pos + needed > 0 ==> ((o + pos + needed) % 4096 == 0 || pos + needed == n),
    {
        let p = (o + pos) / 4096;
        let oip = (o + pos) % 4096;
        let lo = o / 4096;
        let hi = last_page(o, pos);
        let nhi = last_page(o, pos + needed);
        assert(hi < p && lo <= p && nhi == p && 0 < needed <= 4096 - oip) by (nonlinear_arith)
            requires p == (o + pos) / 4096, oip == (o + pos) % 4096, lo == o / 4096,
                hi == (if pos == 0 { o / 4096 - 1 } else { (o + pos - 1) / 4096 }),
                nhi == (o + pos + needed - 1) / 4096,
                needed == (if n - pos < 4096 - oip { n - pos } else { 4096 - oip }),
                pos > 0 ==> (o + pos) % 4096 == 0, 0 <= o, 0 <= pos < n;
        assert((o + pos + needed) % 4096 == 0 || pos + needed == n) by (nonlinear_arith)
            requires oip == (o + pos) % 4096, needed == (if n - pos < 4096 - oip { n - pos } else { 4096 - oip });
        assert(self.img().subrange(0, 64) =~= cur.subrange(0, 64));
        // bytes of earlier pages
        assert forall|q: int| 0 <= q && q / 4096 < p && q / 4096 >= lo implies
            #[trigger] self.byte(q) == byte_at(cur, self.key(), self.prefix(), q) by {
            let j = q / 4096;
            assert(phys(j) + ENCRYPTED_PAGE <= phys(hi) + ENCRYPTED_PAGE) by (nonlinear_arith) requires j <= hi;
            assert(stored(cur, j));
            assert(phys(j) + ENCRYPTED_PAGE <= phys(p)) by (nonlinear_arith) requires j < p;
            assert(stored(self.img(), j));
            lemma_same_page(self.img(), cur, self.key(), self.prefix(), j);
        }
        assert forall|q: int| o <= q < o + pos + needed implies #[trigger] self.byte(q) == Some(d[q - o]) by {
            if q < o + pos {
                assert(q / 4096 < p && q / 4096 >= lo) by (nonlinear_arith)
                    requires o <= q < o + pos, p == (o + pos) / 4096, lo == o / 4096, pos > 0 ==> (o + pos) % 4096 == 0;
                assert(byte_at(cur, self.key(), self.prefix(), q) == Some(d[q - o]));
            } else {
                assert(q / 4096 == p && q % 4096 == oip + (q - o - pos)) by (nonlinear_arith)
                    requires o + pos <= q < o + pos + needed, p == (o + pos) / 4096, oip == (o + pos) % 4096, needed <= 4096 - oip;
            }
        }
        assert forall|q: int| 0 <= q && !(o <= q < o + pos + needed) && touched(o, pos + needed, q / 4096)
            implies #[trigger] self.byte(q) == old_self.byte(q) by {
            if q / 4096 < p {
                assert(touched(o, pos, q / 4096)) by (nonlinear_arith)
                    requires q / 4096 < p, lo <= q / 4096, p == (o + pos) / 4096, lo == o / 4096, 0 <= o, hi == (if pos == 0 { o / 4096 - 1 } else { (o + pos - 1) / 4096 }),
                        pos > 0 ==> (o + pos) % 4096 == 0, touched(o, pos + needed, q / 4096), pos + needed > 0;
                assert(byte_at(cur, self.key(), self.prefix(), q) == old_self.byte(q));
            } else {
                assert(q / 4096 == p);
                let t = q % 4096;
                assert(!(oip <= t < oip + needed)) by (nonlinear_arith)
                    requires q / 4096 == p, t == q % 4096, p == (o + pos) / 4096, oip == (o + pos) % 4096,
                        !(o <= q < o + pos + needed), pos > 0 ==> (o + pos) % 4096 == 0, needed <= 4096 - oip, 0 <= q, 0 <= o, 0 <= pos;
                assert(!(oip == 0 && needed == 4096));
                assert(page[t] == before[t]);
            }
        }
        assert forall|b: int| 0 <= b < self.img().len() && !(16 <= b < 24) && !(nhi >= lo && phys(lo) <= b < phys(nhi) + ENCRYPTED_PAGE)
            implies #[trigger] self.img()[b] == (if b < old_self.img().len() { old_self.img()[b] } else { 0u8 }) by {
            assert(!(phys(p) <= b < phys(p) + ENCRYPTED_PAGE));
            if hi >= lo {
                assert(!(phys(lo) <= b < phys(hi) + ENCRYPTED_PAGE)) by (nonlinear_arith)
                    requires hi < p, nhi == p, !(phys(lo) <= b < phys(nhi) + ENCRYPTED_PAGE);
            }
            if b < cur.len() {
                assert(cur[b] == (if b < old_self.img().len() { old_self.img()[b] } else { 0u8 }));
            }
        }
        if hi >= lo {
            assert(phys(hi) + ENCRYPTED_PAGE <= phys(p)) by (nonlinear_arith) requires hi < p;
        }
    }
}

// ───────────────────────── keys ─────────────────────────

/// hex's decoding error, carried opaque.
#[verifier::external_type_specification]
#[verifier::external_body]
pub struct ExFromHexError(hex::FromHexError);

/// The value of a hex digit (either case).
pub open spec fn hex_val(c: char) -> Option<nat> {
    if '0' <= c <= '9' { Some((c as nat - '0' as nat) as nat) }
    else if 'a' <= c <= 'f' { Some((c as nat - 'a' as nat + 10) as nat) }
    else if 'A' <= c <= 'F' { Some((c as nat - 'A' as nat + 10) as nat) }
    else { None }
}

/// `s` is an even number of hex digits.
pub open spec fn is_hex_text(s: Seq<char>) -> bool {
    s.len() % 2 == 0 && forall|i: int| 0 <= i < s.len() ==> #[trigger] hex_val(s[i]) is Some
}

/// The bytes that a string of hex digit pairs denotes.
pub open spec fn hex_bytes(s: Seq<char>) -> Seq<u8> {
    Seq::new(s.len() / 2, |i: int| (hex_val(s[2 * i]).unwrap() * 16 + hex_val(s[2 * i + 1]).unwrap()) as u8)
}

/// A lowercase hex digit.
pub open spec fn hex_char(d: nat) -> char {
    if d < 10 { ('0' as nat + d) as char } else { ('a' as nat + d - 10) as char }
}

/// Lowercase hex text of bytes, two digits per byte.
pub open spec fn hex_text(b: Seq<u8>) -> Seq<char> {
    Seq::new(b.len() * 2, |i: int| if i % 2 == 0 { hex_char(b[i / 2] as nat / 16) } else { hex_char(b[i / 2] as nat % 16) })
}

/// hex 0.4 `decode`: both cases are accepted; an odd length or a non-hex
/// character is an error.
#[verifier::external_body]
fn hex_decode(s: &str) -> (r: Result<Vec<u8>, hex::FromHexError>)
    ensures
        r is Ok <==> is_hex_text(s@),
        r matches Ok(b) ==> b@ == hex_bytes(s@),
{
    hex::decode(s)
}

/// hex 0.4 `encode`: two lowercase hex digits per byte.
#[verifier::external_body]
fn hex_encode(b: &[u8]) -> (r: String)
    ensures
        r@ == hex_text(b@),
{
    hex::encode(b)
}

/// `n` bytes from rand 0.9's thread-local generator (`rand::rng().fill_bytes`).
/// Nothing is claimed of their values.
#[verifier::external_body]
fn random_bytes(n: usize) -> (r: Vec<u8>)
    ensures
        r.len() == n,
{
    let mut buf = vec![0u8; n];
    rand::rng().fill_bytes(&mut buf);
    buf
}

/// A fresh random 256-bit key as 64 lowercase hex digits.
pub fn generate_key() -> (r: String)
    ensures
        exists|k: Seq<u8>| k.len() == KEY_SIZE && r@ == hex_text(k) && hex_bytes(r@) == k,
        r@.len() == 64,
        is_hex_text(r@),
{
    let key = random_bytes(KEY_SIZE);
    let r = hex_encode(key.as_slice());
    proof { lemma_hex_text_roundtrip(key@); }
    r
}

/// The digit that `hex_char` writes reads back as the same value.
proof fn lemma_hex_char(d: nat)
    requires
        d < 16,
    ensures
        hex_val(hex_char(d)) == Some(d),
{
}

/// Lowercase hex text is hex text, and it decodes to the bytes it was
/// written from.
pub proof fn lemma_hex_text_roundtrip(k: Seq<u8>)
    ensures
        is_hex_text(hex_text(k)),
        hex_bytes(hex_text(k)) == k,
{
    let t = hex_text(k);
    assert forall|i: int| 0 <= i < t.len() implies #[trigger] hex_val(t[i]) is Some by {
        let b = k[i / 2] as nat;
        assert(b / 16 < 16 && b % 16 < 16) by (nonlinear_arith) requires b < 256;
        lemma_hex_char(b / 16);
        lemma_hex_char(b % 16);
    }
    assert(t.len() % 2 == 0);
    assert forall|j: int| 0 <= j < k.len() implies #[trigger] hex_bytes(t)[j] == k[j] by {
        let b = k[j] as nat;
        assert(b / 16 < 16 && b % 16 < 16 && (b / 16) * 16 + b % 16 == b) by (nonlinear_arith) requires b < 256;
        assert((2 * j) / 2 == j && (2 * j + 1) / 2 == j && (2 * j) % 2 == 0 && (2 * j + 1) % 2 == 1) by (nonlinear_arith);
        lemma_hex_char(b / 16);
        lemma_hex_char(b % 16);
        assert(t[2 * j] == hex_char(b / 16));
        assert(t[2 * j + 1] == hex_char(b % 16));
    }
    assert(hex_bytes(t) =~= k);
}

impl EncryptedBackend {
    /// Opens an image with a key; a new (empty) image gets a header with a
    /// random nonce prefix.
    pub fn open(image: Vec<u8>, key: &[u8]) -> (r: Result<Self, CryptoError>)
        requires
            image.len() <= HEADER_SIZE + (MAX_LOGICAL / PAGE_SIZE as u64 + 1) * ENCRYPTED_PAGE,
        ensures
            key.len() != KEY_SIZE ==> r matches Err(CryptoError::InvalidKey),
            key.len() == KEY_SIZE && image.len() == 0 ==> (r matches Ok(b) && b.wf() && b.key() == key@
                && b.logical() == 0 && b.img().len() == HEADER_SIZE),
            key.len() == KEY_SIZE && 0 < image.len() < HEADER_SIZE ==> r matches Err(CryptoError::Io(_)),
            key.len() == KEY_SIZE && image.len() >= HEADER_SIZE && image@.subrange(0, 8) != magic()
                ==> r matches Err(CryptoError::InvalidFile),
            key.len() == KEY_SIZE && image.len() >= HEADER_SIZE && image@.subrange(0, 8) == magic()
                ==> (r matches Ok(b) && b.wf() && b.key() == key@ && b.img() == image@
                    && b.prefix() == image@.subrange(8, 16) && b.logical() == le_value(image@.subrange(16, 24))),
    {
        let prefix = random_bytes(8);
        let r = Self::open_with_prefix(image, key, prefix.as_slice());
        proof {
            if key.len() == KEY_SIZE && image.len() == 0 {
                reveal_with_fuel(le_bytes, 9);
            }
        }
        r
    }

    /// Opens an image with a key given as 64 hex digits.
    pub fn open_hex(image: Vec<u8>, hex_key: &str) -> (r: Result<Self, CryptoError>)
        requires
            image.len() <= HEADER_SIZE + (MAX_LOGICAL / PAGE_SIZE as u64 + 1) * ENCRYPTED_PAGE,
        ensures
            !(is_hex_text(hex_key@) && hex_key@.len() == 2 * KEY_SIZE) ==> r matches Err(CryptoError::InvalidKey),
            is_hex_text(hex_key@) && hex_key@.len() == 2 * KEY_SIZE ==> !(r matches Err(CryptoError::InvalidKey)),
            is_hex_text(hex_key@) && hex_key@.len() == 2 * KEY_SIZE && image.len() == 0
                ==> (r matches Ok(b) && b.wf() && b.key() == hex_bytes(hex_key@)
                    && b.logical() == 0 && b.img().len() == HEADER_SIZE),
            is_hex_text(hex_key@) && hex_key@.len() == 2 * KEY_SIZE && 0 < image.len() < HEADER_SIZE
                ==> r matches Err(CryptoError::Io(_)),
            is_hex_text(hex_key@) && hex_key@.len() == 2 * KEY_SIZE && image.len() >= HEADER_SIZE
                && image@.subrange(0, 8) != magic()
                ==> r matches Err(CryptoError::InvalidFile),
            is_hex_text(hex_key@) && hex_key@.len() == 2 * KEY_SIZE && image.len() >= HEADER_SIZE
                && image@.subrange(0, 8) == magic()
                ==> (r matches Ok(b) && b.wf() && b.key() == hex_bytes(hex_key@) && b.img() == image@
                    && b.prefix() == image@.subrange(8, 16) && b.logical() == le_value(image@.subrange(16, 24))),
    {
        match hex_decode(hex_key) {
            Err(_) => Err(CryptoError::InvalidKey),
            Ok(key_bytes) => {
                if key_bytes.len() != KEY_SIZE {
                    return Err(CryptoError::InvalidKey);
                }
                Self::open(image, key_bytes.as_slice())
            },
        }
    }

    /// The image range that a write of `len` bytes at `offset` may change:
    /// the length field of the header and the touched pages (plus any gap
    /// before them that the image grows over).
    pub fn dirty_range(&self, offset: u64, len: usize) -> (r: (usize, usize))
        requires
            self.wf(),
            offset + len <= MAX_LOGICAL,
        ensures
            r.0 <= r.1,
            len > 0 ==> r.1 == phys(last_page(offset as int, len as int)) + ENCRYPTED_PAGE,
            len > 0 ==> r.0 == if self.img().len() < phys(offset as int / 4096) { self.img().len() as int } else { phys(offset as int / 4096) },
            len == 0 ==> r.0 == r.1,
    {
        if len == 0 {
            return (0, 0);
        }
        let first: usize = (offset / PAGE_SIZE as u64) as usize;
        let last: usize = ((offset + len as u64 - 1) / PAGE_SIZE as u64) as usize;
        assert(first <= last && HEADER_SIZE + last * ENCRYPTED_PAGE + ENCRYPTED_PAGE <= usize::MAX) by (nonlinear_arith)
            requires first == offset / 4096, last == (offset + len - 1) / 4096, offset + len <= MAX_LOGICAL, len > 0;
        let start = HEADER_SIZE + first * ENCRYPTED_PAGE;
        let start = if self.image.len() < start { self.image.len() } else { start };
        assert(start <= HEADER_SIZE + last * ENCRYPTED_PAGE + ENCRYPTED_PAGE) by (nonlinear_arith)
            requires first <= last, start <= HEADER_SIZE + first * ENCRYPTED_PAGE;
        (start, HEADER_SIZE + last * ENCRYPTED_PAGE + ENCRYPTED_PAGE)
    }
}

// ───────────────────────── laws ─────────────────────────

/// Reading a range just written gives back the written bytes: every byte of
/// the range is readable and equal to the data.
pub proof fn law_read_after_write(old: EncryptedBackend, new: EncryptedBackend, o: int, d: Seq<u8>)
    requires
        write_effect(old, new, o, d),
    ensures
        forall|j: int| 0 <= j < d.len() ==> #[trigger] new.byte(o + j) == Some(d[j]),
{
    assert forall|j: int| 0 <= j < d.len() implies #[trigger] new.byte(o + j) == Some(d[j]) by {
        assert(new.byte(o + j) == Some(d[(o + j) - o]));
    }
}

/// A write changes no byte outside its range whose page was already stored
/// in the image or is one of the pages it touches.
pub proof fn law_write_keeps_other_bytes(old: EncryptedBackend, new: EncryptedBackend, o: int, d: Seq<u8>, q: int)
    requires
        old.wf(),
        new.key() == old.key(),
        new.prefix() == old.prefix(),
        write_effect(old, new, o, d),
        0 <= o,
        0 <= q,
        !(o <= q < o + d.len()),
        stored(old.img(), q / 4096) || touched(o, d.len() as int, q / 4096),
    ensures
        new.byte(q) == old.byte(q),
{
    let j = q / 4096;
    if !touched(o, d.len() as int, j) {
        let lo = o / 4096;
        let hi = last_page(o, d.len() as int);
        assert(!(hi >= lo && phys(lo) <= phys(j) + 1 && phys(j) < phys(hi) + ENCRYPTED_PAGE) || (lo <= j <= hi)) by (nonlinear_arith)
            requires true;
        if hi >= lo {
            if j < lo {
                assert(phys(j) + ENCRYPTED_PAGE <= phys(lo)) by (nonlinear_arith) requires j < lo;
            } else {
                assert(j > hi);
                assert(phys(hi) + ENCRYPTED_PAGE <= phys(j)) by (nonlinear_arith) requires j > hi;
            }
        }
        assert(stored(new.img(), j));
        assert forall|b: int| phys(j) <= b < phys(j) + ENCRYPTED_PAGE implies new.img()[b] == old.img()[b] by {
            assert(!(16 <= b < 24));
            assert(new.img()[b] == (if b < old.img().len() { old.img()[b] } else { 0u8 }));
        }
        assert(page_ct(new.img(), j) =~= page_ct(old.img(), j));
        lemma_same_page(new.img(), old.img(), new.key(), new.prefix(), j);
    }
}

/// The logical length after a write covers the written range and never shrinks.
pub proof fn law_write_length(old: EncryptedBackend, new: EncryptedBackend, o: int, d: Seq<u8>)
    requires
        write_effect(old, new, o, d),
    ensures
        new.logical() >= old.logical(),
        new.logical() >= o + d.len(),
        new.logical() == old.logical() || new.logical() == o + d.len(),
{
}

/// Reopening an image with the same key reproduces the same logical bytes and length.
pub proof fn law_reopen(b: EncryptedBackend, b2: EncryptedBackend)
    requires
        b.wf(),
        b2.img() == b.img(),
        b2.key() == b.key(),
        b2.prefix() == b.img().subrange(8, 16),
        b2.logical() == le_value(b.img().subrange(16, 24)),
    ensures
        forall|q: int| #[trigger] b2.byte(q) == b.byte(q),
        b2.logical() == b.logical(),
{
    lemma_le_roundtrip(b.img().subrange(16, 24));
    reveal_with_fuel(pow256, 9);
    lemma_le_injective(b.logical(), le_value(b.img().subrange(16, 24)), 8);
}

fn magic_bytes() -> (r: Vec<u8>)
    ensures
        r@ == magic(),
{
    let v: Vec<u8> = vec![0x59u8, 0x53u8, 0x48u8, 0x45u8, 0x4eu8, 0x43u8, 0u8, 0u8];
    assert(v@ =~= magic());
    v
}

proof fn lemma_le_injective(a: nat, b: nat, n: nat)
    requires
        le_bytes(a, n) == le_bytes(b, n),
        a < pow256(n),
        b < pow256(n),
    ensures
        a == b,
    decreases n,
{
    if n > 0 {
        assert(le_bytes(a, n)[0] == le_bytes(b, n)[0]);
        assert(le_bytes(a, n).skip(1) =~= le_bytes(a / 256, (n - 1) as nat));
        assert(le_bytes(b, n).skip(1) =~= le_bytes(b / 256, (n - 1) as nat));
        assert(a / 256 < pow256((n - 1) as nat) && b / 256 < pow256((n - 1) as nat)) by (nonlinear_arith)
            requires a < pow256(n), b < pow256(n), pow256(n) == 256 * pow256((n - 1) as nat);
        lemma_le_injective(a / 256, b / 256, (n - 1) as nat);
        assert(le_bytes(a, n)[0] == (a % 256) as u8);
        assert(le_bytes(b, n)[0] == (b % 256) as u8);
        assert(a % 256 == b % 256);
        assert(a == b) by (nonlinear_arith)
            requires a / 256 == b / 256, a % 256 == b % 256;
    }
}

} // verus!
