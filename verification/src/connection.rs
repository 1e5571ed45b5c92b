//! AES-128 in CFB-8 mode on a connection, and the bookkeeping of encrypted
//! bytes that the underlying writer has not taken yet.
//!
//! The cipher is held as plain values: the key and the shift register, which
//! in CFB-8 is the last sixteen bytes of the IV followed by all the
//! ciphertext so far. Each call hands them to the `cfb8` and `aes` crates.

use crate::bytes::append_bytes;
use aes::cipher::{AsyncStreamCipher, KeyIvInit};
use vstd::prelude::*;

verus! {

/// The block that AES-128 makes of a sixteen-byte `block` under `key`.
pub uninterp spec fn aes128_encrypt_block(key: Seq<u8>, block: Seq<u8>) -> Seq<u8>;

/// The shift register of CFB-8 after `ciphertext` went through it: the last
/// sixteen bytes of the register followed by the ciphertext.
pub open spec fn next_register(register: Seq<u8>, ciphertext: Seq<u8>) -> Seq<u8> {
    let all = register + ciphertext;
    all.subrange(all.len() - 16, all.len() as int)
}

/// The byte of key stream that CFB-8 takes from a register: the first byte
/// of its AES-128 encryption.
pub open spec fn key_stream_byte(key: Seq<u8>, register: Seq<u8>) -> u8 {
    aes128_encrypt_block(key, register)[0]
}

/// AES-128 in CFB-8 mode, encrypting: each byte is xor-ed with the key stream
/// byte of the register, and the ciphertext byte is shifted into the
/// register.
pub open spec fn cfb8_encrypt_spec(key: Seq<u8>, register: Seq<u8>, data: Seq<u8>) -> Seq<u8>
    decreases data.len(),
{
    if data.len() == 0 {
        Seq::empty()
    } else {
        let c = data[0] ^ key_stream_byte(key, register);
        seq![c] + cfb8_encrypt_spec(key, next_register(register, seq![c]), data.skip(1))
    }
}

/// AES-128 in CFB-8 mode, decrypting: each byte is xor-ed with the key stream
/// byte of the register, and the ciphertext byte, the one that came in, is
/// shifted into the register.
pub open spec fn cfb8_decrypt_spec(key: Seq<u8>, register: Seq<u8>, data: Seq<u8>) -> Seq<u8>
    decreases data.len(),
{
    if data.len() == 0 {
        Seq::empty()
    } else {
        let p = data[0] ^ key_stream_byte(key, register);
        seq![p] + cfb8_decrypt_spec(key, next_register(register, seq![data[0]]), data.skip(1))
    }
}

/// Calls `cfb8::Encryptor::<aes::Aes128>::new_from_slices` and `encrypt`:
/// CFB-8 as the crate's `proc_block` computes it, byte by byte, over AES-128
/// block encryption, whose result is named; the first byte of the result
/// comes from the IV itself.
#[verifier::external_body]
fn cfb8_encrypt(key: &[u8], iv: &[u8], data: &[u8]) -> (r: Vec<u8>)
    requires
        key@.len() == 16,
        iv@.len() == 16,
    ensures
        r@ == cfb8_encrypt_spec(key@, iv@, data@),
        data@.len() > 0 ==> r@[0] == data@[0] ^ aes128_encrypt_block(key@, iv@)[0],
{
    let mut out = data.to_vec();
    let cipher = cfb8::Encryptor::<aes::Aes128>::new_from_slices(key, iv).unwrap();
    cipher.encrypt(&mut out);
    out
}

/// Calls `cfb8::Decryptor::<aes::Aes128>::new_from_slices` and `decrypt`:
/// CFB-8 as the crate's `proc_block` computes it, byte by byte, over AES-128
/// block encryption, whose result is named; the first byte of the result
/// comes from the IV itself.
#[verifier::external_body]
fn cfb8_decrypt(key: &[u8], iv: &[u8], data: &[u8]) -> (r: Vec<u8>)
    requires
        key@.len() == 16,
        iv@.len() == 16,
    ensures
        r@ == cfb8_decrypt_spec(key@, iv@, data@),
        data@.len() > 0 ==> r@[0] == data@[0] ^ aes128_encrypt_block(key@, iv@)[0],
{
    let mut out = data.to_vec();
    let cipher = cfb8::Decryptor::<aes::Aes128>::new_from_slices(key, iv).unwrap();
    cipher.decrypt(&mut out);
    out
}

proof fn lemma_next_register_twice(register: Seq<u8>, a: Seq<u8>, b: Seq<u8>)
    requires
        register.len() == 16,
    ensures
        next_register(next_register(register, a), b) == next_register(register, a + b),
        next_register(register, a).len() == 16,
{
    let all = register + a;
    let r1 = all.subrange(all.len() - 16, all.len() as int);
    let all2 = r1 + b;
    let full = register + (a + b);
    assert(all2.subrange(all2.len() - 16, all2.len() as int) =~= full.subrange(
        full.len() - 16,
        full.len() as int,
    ));
}

/// Encrypting keeps the length of the data.
pub proof fn lemma_encrypt_len(key: Seq<u8>, register: Seq<u8>, data: Seq<u8>)
    ensures
        cfb8_encrypt_spec(key, register, data).len() == data.len(),
    decreases data.len(),
{
    if data.len() > 0 {
        let c = data[0] ^ key_stream_byte(key, register);
        lemma_encrypt_len(key, next_register(register, seq![c]), data.skip(1));
    }
}

/// Decrypting keeps the length of the data.
pub proof fn lemma_decrypt_len(key: Seq<u8>, register: Seq<u8>, data: Seq<u8>)
    ensures
        cfb8_decrypt_spec(key, register, data).len() == data.len(),
    decreases data.len(),
{
    if data.len() > 0 {
        lemma_decrypt_len(key, next_register(register, seq![data[0]]), data.skip(1));
    }
}

/// Decrypting, from the same key and register, what encrypting made gives
/// the data back.
pub proof fn lemma_decrypt_encrypt(key: Seq<u8>, register: Seq<u8>, data: Seq<u8>)
    ensures
        cfb8_decrypt_spec(key, register, cfb8_encrypt_spec(key, register, data)) == data,
    decreases data.len(),
{
    if data.len() > 0 {
        let k = key_stream_byte(key, register);
        let c = data[0] ^ k;
        let rest = cfb8_encrypt_spec(key, next_register(register, seq![c]), data.skip(1));
        let ct = cfb8_encrypt_spec(key, register, data);
        assert(ct == seq![c] + rest);
        assert(ct[0] == c);
        assert(ct.skip(1) =~= rest);
        lemma_decrypt_encrypt(key, next_register(register, seq![c]), data.skip(1));
        let d0 = data[0];
        assert((c ^ k) == d0) by (bit_vector)
            requires
                c == d0 ^ k,
        ;
        assert(data =~= seq![data[0]] + data.skip(1));
    }
}

/// Encrypting, from the same key and register, what decrypting made gives
/// the ciphertext back.
pub proof fn lemma_encrypt_decrypt(key: Seq<u8>, register: Seq<u8>, data: Seq<u8>)
    ensures
        cfb8_encrypt_spec(key, register, cfb8_decrypt_spec(key, register, data)) == data,
    decreases data.len(),
{
    if data.len() > 0 {
        let k = key_stream_byte(key, register);
        let p = data[0] ^ k;
        let rest = cfb8_decrypt_spec(key, next_register(register, seq![data[0]]), data.skip(1));
        let pt = cfb8_decrypt_spec(key, register, data);
        assert(pt == seq![p] + rest);
        assert(pt[0] == p);
        assert(pt.skip(1) =~= rest);
        let d0 = data[0];
        assert((p ^ k) == d0) by (bit_vector)
            requires
                p == d0 ^ k,
        ;
        lemma_encrypt_decrypt(key, next_register(register, seq![data[0]]), data.skip(1));
        assert(data =~= seq![data[0]] + data.skip(1));
    }
}

/// Encrypting in two pieces gives what encrypting all at once gives: the
/// second piece goes on from the register that the first piece's
/// ciphertext left.
pub proof fn lemma_encrypt_in_pieces(key: Seq<u8>, register: Seq<u8>, a: Seq<u8>, b: Seq<u8>)
    requires
        register.len() == 16,
    ensures
        cfb8_encrypt_spec(key, register, a + b) == cfb8_encrypt_spec(key, register, a)
            + cfb8_encrypt_spec(
            key,
            next_register(register, cfb8_encrypt_spec(key, register, a)),
            b,
        ),
    decreases a.len(),
{
    if a.len() == 0 {
        assert(a + b =~= b);
        assert(next_register(register, Seq::<u8>::empty()) =~= register);
        assert(cfb8_encrypt_spec(key, register, a) =~= Seq::<u8>::empty());
        assert(Seq::<u8>::empty() + cfb8_encrypt_spec(key, register, b) =~= cfb8_encrypt_spec(
            key,
            register,
            b,
        ));
    } else {
        let c = a[0] ^ key_stream_byte(key, register);
        let r1 = next_register(register, seq![c]);
        lemma_next_register_twice(register, seq![c], Seq::<u8>::empty());
        assert((a + b)[0] == a[0]);
        assert((a + b).skip(1) =~= a.skip(1) + b);
        lemma_encrypt_in_pieces(key, r1, a.skip(1), b);
        let tail_a = cfb8_encrypt_spec(key, r1, a.skip(1));
        lemma_next_register_twice(register, seq![c], tail_a);
        assert(cfb8_encrypt_spec(key, register, a) == seq![c] + tail_a);
        assert(seq![c] + tail_a =~= seq![c] + tail_a);
        let whole = cfb8_encrypt_spec(key, register, a + b);
        assert(whole == seq![c] + cfb8_encrypt_spec(key, r1, a.skip(1) + b));
        assert(whole =~= (seq![c] + tail_a) + cfb8_encrypt_spec(
            key,
            next_register(r1, tail_a),
            b,
        ));
    }
}

/// The state of one direction of an encrypted connection.
pub struct CipherState {
    key: Vec<u8>,
    register: Vec<u8>,
}

impl CipherState {
    /// The key.
    pub closed spec fn key(&self) -> Seq<u8> {
        self.key@
    }

    /// The shift register: the IV, then the ciphertext so far, sixteen bytes.
    pub closed spec fn register(&self) -> Seq<u8> {
        self.register@
    }

    /// Both are sixteen bytes long.
    pub closed spec fn wf(&self) -> bool {
        self.key@.len() == 16 && self.register@.len() == 16
    }

    /// The state of a connection that turns encryption on with this shared
    /// secret, which is both the key and the IV.
    pub fn new(key: &[u8; 16]) -> (r: CipherState)
        ensures
            r.wf(),
            r.key() == key@,
            r.register() == key@,
    {
        let k: &[u8] = key.as_slice();
        let key_vec = vstd::slice::slice_to_vec(k);
        let register = vstd::slice::slice_to_vec(k);
        CipherState { key: key_vec, register }
    }

    fn shift_in(&mut self, ciphertext: &[u8])
        requires
            old(self).wf(),
        ensures
            final(self).wf(),
            final(self).key() == old(self).key(),
            final(self).register() == next_register(old(self).register(), ciphertext@),
    {
        let mut all = vstd::slice::slice_to_vec(self.register.as_slice());
        append_bytes(&mut all, ciphertext);
        let n = all.len();
        let mut reg: Vec<u8> = Vec::new();
        let mut i: usize = n - 16;
        while i < n
            invariant
                n == all@.len(),
                n >= 16,
                n - 16 <= i <= n,
                reg@ == all@.subrange(n - 16, i as int),
            decreases n - i,
        {
            reg.push(all[i]);
            i = i + 1;
            assert(reg@ =~= all@.subrange(n - 16, i as int));
        }
        self.register = reg;
    }

    /// Encrypts bytes that go out, and moves the register on.
    pub fn encrypt(&mut self, data: &[u8]) -> (r: Vec<u8>)
        requires
            old(self).wf(),
        ensures
            final(self).wf(),
            r@ == cfb8_encrypt_spec(old(self).key(), old(self).register(), data@),
            r@.len() == data@.len(),
            cfb8_decrypt_spec(old(self).key(), old(self).register(), r@) == data@,
            final(self).key() == old(self).key(),
            final(self).register() == next_register(old(self).register(), r@),
    {
        let out = cfb8_encrypt(self.key.as_slice(), self.register.as_slice(), data);
        proof {
            lemma_encrypt_len(self.key@, self.register@, data@);
            lemma_decrypt_encrypt(self.key@, self.register@, data@);
        }
        self.shift_in(out.as_slice());
        out
    }

    /// Decrypts bytes that came in, and moves the register on.
    pub fn decrypt(&mut self, data: &[u8]) -> (r: Vec<u8>)
        requires
            old(self).wf(),
        ensures
            final(self).wf(),
            r@ == cfb8_decrypt_spec(old(self).key(), old(self).register(), data@),
            r@.len() == data@.len(),
            cfb8_encrypt_spec(old(self).key(), old(self).register(), r@) == data@,
            final(self).key() == old(self).key(),
            final(self).register() == next_register(old(self).register(), data@),
    {
        let out = cfb8_decrypt(self.key.as_slice(), self.register.as_slice(), data);
        proof {
            lemma_decrypt_len(self.key@, self.register@, data@);
            lemma_encrypt_decrypt(self.key@, self.register@, data@);
        }
        self.shift_in(data);
        out
    }
}

/// The underlying writer took no bytes of the ciphertext that waits.
#[derive(Debug, Clone, Copy, PartialEq, Eq)]
pub struct WriteZero;

/// The encrypting side of a connection: the cipher, and the ciphertext of
/// the last write with how much of it the underlying writer has taken.
pub struct EncryptorCore {
    cipher: CipherState,
    pending: Vec<u8>,
    pending_pos: usize,
    /// All the ciphertext made so far.
    produced: Ghost<Seq<u8>>,
    /// The register the cipher started from.
    start: Ghost<Seq<u8>>,
    /// All the plaintext encrypted so far.
    plain: Ghost<Seq<u8>>,
    /// All the ciphertext handed to the underlying writer so far.
    written: Ghost<Seq<u8>>,
}

impl EncryptorCore {
    pub closed spec fn cipher(&self) -> CipherState {
        self.cipher
    }

    /// The ciphertext of the last write.
    pub closed spec fn pending(&self) -> Seq<u8> {
        self.pending@
    }

    /// How much of it the writer has taken, as counted.
    pub closed spec fn pending_pos(&self) -> nat {
        self.pending_pos as nat
    }

    pub closed spec fn produced(&self) -> Seq<u8> {
        self.produced@
    }

    pub closed spec fn written(&self) -> Seq<u8> {
        self.written@
    }

    /// The register the cipher started from.
    pub closed spec fn start(&self) -> Seq<u8> {
        self.start@
    }

    /// All the plaintext encrypted so far, in the order of the writes.
    pub closed spec fn plaintext(&self) -> Seq<u8> {
        self.plain@
    }

    /// The ciphertext made so far is the encryption of all the plaintext at
    /// once, from the starting register, and the cipher's register has gone
    /// on by all of it.
    pub open spec fn stream_holds(&self) -> bool {
        &&& self.start().len() == 16
        &&& self.produced() == cfb8_encrypt_spec(self.cipher().key(), self.start(), self.plaintext())
        &&& self.cipher().register() == next_register(self.start(), self.produced())
    }

    pub closed spec fn wf(&self) -> bool {
        self.cipher.wf()
    }

    /// The ciphertext reaches the writer in order: what it took, followed by
    /// what still waits, is all that was made.
    pub closed spec fn in_order(&self) -> bool {
        &&& self.pending_pos <= self.pending@.len()
        &&& self.written@ + self.pending@.subrange(self.pending_pos as int, self.pending@.len() as int)
            == self.produced@
    }

    /// The bytes that wait for the writer.
    pub open spec fn unsent(&self) -> Seq<u8> {
        if self.pending_pos() < self.pending().len() {
            self.pending().subrange(self.pending_pos() as int, self.pending().len() as int)
        } else {
            Seq::empty()
        }
    }

    pub fn new(key: &[u8; 16]) -> (r: EncryptorCore)
        ensures
            r.wf(),
            r.in_order(),
            r.cipher().key() == key@,
            r.cipher().register() == key@,
            r.pending() == Seq::<u8>::empty(),
            r.pending_pos() == 0,
            r.produced() == Seq::<u8>::empty(),
            r.start() == key@,
            r.plaintext() == Seq::<u8>::empty(),
            r.stream_holds(),
            r.written() == Seq::<u8>::empty(),
    {
        let r = EncryptorCore {
            cipher: CipherState::new(key),
            pending: Vec::new(),
            pending_pos: 0,
            produced: Ghost(Seq::empty()),
            start: Ghost(key@),
            plain: Ghost(Seq::empty()),
            written: Ghost(Seq::empty()),
        };
        assert(r.written@ + r.pending@.subrange(0, 0) =~= r.produced@);
        assert(next_register(key@, Seq::<u8>::empty()) =~= key@);
        assert(cfb8_encrypt_spec(key@, key@, Seq::<u8>::empty()) =~= Seq::<u8>::empty());
        r
    }

    /// The ciphertext of the last write, all of it.
    pub fn pending_bytes(&self) -> (r: &[u8])
        ensures
            r@ == self.pending(),
    {
        self.pending.as_slice()
    }

    /// Whether ciphertext waits for the writer.
    pub fn has_unsent(&self) -> (r: bool)
        ensures
            r == (self.pending_pos() < self.pending().len()),
    {
        self.pending_pos < self.pending.len()
    }

    /// The bytes that wait for the writer.
    pub fn unsent_bytes(&self) -> (r: &[u8])
        ensures
            r@ == self.unsent(),
    {
        if self.pending_pos < self.pending.len() {
            vstd::slice::slice_subrange(self.pending.as_slice(), self.pending_pos, self.pending.len())
        } else {
            let empty: &[u8] = &[];
            assert(empty@ =~= Seq::<u8>::empty());
            empty
        }
    }

    /// Counts `n` more bytes of the waiting ciphertext as taken by the
    /// writer. A writer that takes none is an error, and changes nothing.
    pub fn record_written(&mut self, n: usize) -> (r: Result<(), WriteZero>)
        requires
            old(self).wf(),
            old(self).pending_pos() < old(self).pending().len(),
            n <= old(self).pending().len() - old(self).pending_pos(),
        ensures
            final(self).wf(),
            n == 0 ==> r is Err && *final(self) == *old(self),
            n > 0 ==> {
                &&& r is Ok
                &&& final(self).cipher() == old(self).cipher()
                &&& final(self).pending() == old(self).pending()
                &&& final(self).pending_pos() == old(self).pending_pos() + n
                &&& final(self).produced() == old(self).produced()
                &&& final(self).written() == old(self).written() + old(self).pending().subrange(
                    old(self).pending_pos() as int,
                    old(self).pending_pos() + n,
                )
                &&& final(self).plaintext() == old(self).plaintext()
                &&& final(self).start() == old(self).start()
            },
            old(self).in_order() ==> final(self).in_order(),
            old(self).stream_holds() ==> final(self).stream_holds(),
    {
        if n == 0 {
            return Err(WriteZero);
        }
        let _len = self.pending.len();
        let ghost p = self.pending@;
        let ghost pos = self.pending_pos as int;
        self.written = Ghost(self.written@ + p.subrange(pos, pos + n));
        self.pending_pos = self.pending_pos + n;
        proof {
            assert(p.subrange(pos, pos + n) + p.subrange(pos + n, p.len() as int) =~= p.subrange(
                pos,
                p.len() as int,
            ));
            assert(self.written@ + p.subrange(pos + n, p.len() as int) =~= old(self).written@
                + p.subrange(pos, p.len() as int));
        }
        Ok(())
    }

    /// A write of `buf` on the synchronous encryptor, once nothing waits:
    /// nothing for an empty `buf`; else its ciphertext becomes what waits,
    /// none of it taken yet.
    pub fn start_write(&mut self, buf: &[u8])
        requires
            old(self).wf(),
            !(old(self).pending_pos() < old(self).pending().len()),
        ensures
            final(self).wf(),
            buf@.len() == 0 ==> *final(self) == *old(self),
            buf@.len() > 0 ==> {
                &&& final(self).pending() == cfb8_encrypt_spec(
                    old(self).cipher().key(),
                    old(self).cipher().register(),
                    buf@,
                )
                &&& final(self).pending_pos() == 0
                &&& final(self).produced() == old(self).produced() + final(self).pending()
                &&& final(self).written() == old(self).written()
                &&& final(self).cipher().register() == next_register(
                    old(self).cipher().register(),
                    final(self).pending(),
                )
                &&& final(self).cipher().key() == old(self).cipher().key()
            },
            final(self).plaintext() == old(self).plaintext() + buf@,
            final(self).start() == old(self).start(),
            old(self).in_order() ==> final(self).in_order(),
            old(self).stream_holds() ==> final(self).stream_holds(),
    {
        if buf.len() == 0 {
            assert(self.plain@ + buf@ =~= self.plain@);
            return;
        }
        let ghost reg0 = self.cipher.register@;
        let ct = self.cipher.encrypt(buf);
        self.produced = Ghost(self.produced@ + ct@);
        self.plain = Ghost(self.plain@ + buf@);
        proof {
            if old(self).stream_holds() {
                let k = self.cipher.key@;
                let s0 = self.start@;
                lemma_encrypt_in_pieces(k, s0, old(self).plain@, buf@);
                lemma_next_register_twice(s0, old(self).produced@, ct@);
            }
            if old(self).in_order() {
                assert(old(self).pending@.subrange(
                    old(self).pending_pos as int,
                    old(self).pending@.len() as int,
                ) =~= Seq::<u8>::empty());
                assert(self.written@ + ct@.subrange(0, ct@.len() as int) =~= self.produced@);
            }
        }
        self.pending = ct;
        self.pending_pos = 0;
    }

    /// The first write of the synchronous encryptor's new ciphertext: the
    /// writer took `n` bytes of it, possibly none.
    pub fn record_first_write(&mut self, n: usize)
        requires
            old(self).wf(),
            old(self).pending_pos() == 0,
            n <= old(self).pending().len(),
        ensures
            final(self).wf(),
            final(self).cipher() == old(self).cipher(),
            final(self).pending() == old(self).pending(),
            final(self).pending_pos() == n,
            final(self).produced() == old(self).produced(),
            final(self).written() == old(self).written() + old(self).pending().subrange(0, n as int),
            final(self).plaintext() == old(self).plaintext(),
            final(self).start() == old(self).start(),
            old(self).in_order() ==> final(self).in_order(),
            old(self).stream_holds() ==> final(self).stream_holds(),
    {
        let ghost p = self.pending@;
        self.written = Ghost(self.written@ + p.subrange(0, n as int));
        self.pending_pos = n;
        proof {
            assert(p.subrange(0, n as int) + p.subrange(n as int, p.len() as int) =~= p.subrange(
                0,
                p.len() as int,
            ));
            assert(self.written@ + p.subrange(n as int, p.len() as int) =~= old(self).written@
                + p.subrange(0, p.len() as int));
        }
    }

    /// A write of `buf` on the asynchronous encryptor, once nothing waits:
    /// as on the synchronous one, nothing for an empty `buf`; else its
    /// ciphertext becomes what waits, none of it taken yet.
    pub fn start_write_async(&mut self, buf: &[u8])
        requires
            old(self).wf(),
            !(old(self).pending_pos() < old(self).pending().len()),
        ensures
            final(self).wf(),
            buf@.len() == 0 ==> *final(self) == *old(self),
            buf@.len() > 0 ==> {
                &&& final(self).pending() == cfb8_encrypt_spec(
                    old(self).cipher().key(),
                    old(self).cipher().register(),
                    buf@,
                )
                &&& final(self).pending_pos() == 0
                &&& final(self).produced() == old(self).produced() + final(self).pending()
                &&& final(self).written() == old(self).written()
                &&& final(self).cipher().register() == next_register(
                    old(self).cipher().register(),
                    final(self).pending(),
                )
                &&& final(self).cipher().key() == old(self).cipher().key()
            },
            final(self).plaintext() == old(self).plaintext() + buf@,
            final(self).start() == old(self).start(),
            old(self).in_order() ==> final(self).in_order(),
            old(self).stream_holds() ==> final(self).stream_holds(),
    {
        self.start_write(buf)
    }

    /// The first write of the asynchronous encryptor's new ciphertext: the
    /// writer took `n` bytes of it, possibly none.
    pub fn record_first_write_async(&mut self, n: usize)
        requires
            old(self).wf(),
            old(self).pending_pos() == 0,
            n <= old(self).pending().len(),
        ensures
            final(self).wf(),
            final(self).cipher() == old(self).cipher(),
            final(self).pending() == old(self).pending(),
            final(self).pending_pos() == n,
            final(self).produced() == old(self).produced(),
            final(self).written() == old(self).written() + old(self).pending().subrange(0, n as int),
            final(self).plaintext() == old(self).plaintext(),
            final(self).start() == old(self).start(),
            old(self).in_order() ==> final(self).in_order(),
            old(self).stream_holds() ==> final(self).stream_holds(),
    {
        self.record_first_write(n)
    }
}

/// What the writer has taken, followed by what still waits for it, is the
/// encryption of all the plaintext written so far, at once, in order: none
/// of it lost or repeated, however the writer split the ciphertext.
pub proof fn lemma_writer_receives_whole_stream(e: EncryptorCore)
    requires
        e.in_order(),
        e.stream_holds(),
    ensures
        e.written() + e.unsent() == cfb8_encrypt_spec(e.cipher().key(), e.start(), e.plaintext()),
{
    if !(e.pending_pos() < e.pending().len()) {
        assert(e.pending().subrange(e.pending_pos() as int, e.pending().len() as int)
            =~= Seq::<u8>::empty());
    }
}

/// The decrypting side of a connection: the cipher, applied to bytes as they
/// are read.
pub struct DecryptorCore {
    cipher: CipherState,
    /// The register the cipher started from.
    start: Ghost<Seq<u8>>,
    /// All the ciphertext read so far.
    received: Ghost<Seq<u8>>,
    /// All the plaintext recovered so far.
    recovered: Ghost<Seq<u8>>,
}

impl DecryptorCore {
    pub closed spec fn cipher(&self) -> CipherState {
        self.cipher
    }

    pub closed spec fn wf(&self) -> bool {
        self.cipher.wf()
    }

    /// The register the cipher started from.
    pub closed spec fn start(&self) -> Seq<u8> {
        self.start@
    }

    /// All the ciphertext read so far, in order.
    pub closed spec fn received(&self) -> Seq<u8> {
        self.received@
    }

    /// All the plaintext recovered so far, in order.
    pub closed spec fn recovered(&self) -> Seq<u8> {
        self.recovered@
    }

    /// The plaintext recovered so far is the decryption of all the
    /// ciphertext at once, from the starting register, and the cipher's
    /// register has gone on by all of it.
    pub open spec fn stream_holds(&self) -> bool {
        &&& self.start().len() == 16
        &&& self.recovered() == cfb8_decrypt_spec(self.cipher().key(), self.start(), self.received())
        &&& self.cipher().register() == next_register(self.start(), self.received())
    }

    pub fn new(key: &[u8; 16]) -> (r: DecryptorCore)
        ensures
            r.wf(),
            r.cipher().key() == key@,
            r.cipher().register() == key@,
            r.start() == key@,
            r.received() == Seq::<u8>::empty(),
            r.recovered() == Seq::<u8>::empty(),
            r.stream_holds(),
    {
        let r = DecryptorCore {
            cipher: CipherState::new(key),
            start: Ghost(key@),
            received: Ghost(Seq::empty()),
            recovered: Ghost(Seq::empty()),
        };
        assert(next_register(key@, Seq::<u8>::empty()) =~= key@);
        assert(cfb8_decrypt_spec(key@, key@, Seq::<u8>::empty()) =~= Seq::<u8>::empty());
        r
    }

    /// Decrypts bytes that were just read.
    pub fn decrypt(&mut self, data: &[u8]) -> (r: Vec<u8>)
        requires
            old(self).wf(),
        ensures
            final(self).wf(),
            r@ == cfb8_decrypt_spec(old(self).cipher().key(), old(self).cipher().register(), data@),
            r@.len() == data@.len(),
            cfb8_encrypt_spec(old(self).cipher().key(), old(self).cipher().register(), r@) == data@,
            final(self).cipher().key() == old(self).cipher().key(),
            final(self).cipher().register() == next_register(old(self).cipher().register(), data@),
            final(self).start() == old(self).start(),
            final(self).received() == old(self).received() + data@,
            final(self).recovered() == old(self).recovered() + r@,
            old(self).stream_holds() ==> final(self).stream_holds(),
    {
        let out = self.cipher.decrypt(data);
        proof {
            if old(self).stream_holds() {
                let k = self.cipher.key@;
                let s0 = self.start@;
                lemma_decrypt_in_pieces(k, s0, old(self).received@, data@);
                lemma_next_register_twice(s0, old(self).received@, data@);
            }
        }
        self.received = Ghost(self.received@ + data@);
        self.recovered = Ghost(self.recovered@ + out@);
        out
    }
}

/// Decrypting in two pieces gives what decrypting all at once gives: the
/// second piece goes on from the register that the first piece left.
pub proof fn lemma_decrypt_in_pieces(key: Seq<u8>, register: Seq<u8>, a: Seq<u8>, b: Seq<u8>)
    requires
        register.len() == 16,
    ensures
        cfb8_decrypt_spec(key, register, a + b) == cfb8_decrypt_spec(key, register, a)
            + cfb8_decrypt_spec(key, next_register(register, a), b),
    decreases a.len(),
{
    if a.len() == 0 {
        assert(a + b =~= b);
        assert(next_register(register, a) =~= register);
        assert(cfb8_decrypt_spec(key, register, a) =~= Seq::<u8>::empty());
        assert(Seq::<u8>::empty() + cfb8_decrypt_spec(key, register, b) =~= cfb8_decrypt_spec(
            key,
            register,
            b,
        ));
    } else {
        let p = a[0] ^ key_stream_byte(key, register);
        let r1 = next_register(register, seq![a[0]]);
        lemma_next_register_twice(register, seq![a[0]], Seq::<u8>::empty());
        assert((a + b)[0] == a[0]);
        assert((a + b).skip(1) =~= a.skip(1) + b);
        lemma_decrypt_in_pieces(key, r1, a.skip(1), b);
        lemma_next_register_twice(register, seq![a[0]], a.skip(1));
        assert(seq![a[0]] + a.skip(1) =~= a);
        let whole = cfb8_decrypt_spec(key, register, a + b);
        assert(whole == seq![p] + cfb8_decrypt_spec(key, r1, a.skip(1) + b));
        assert(cfb8_decrypt_spec(key, register, a) == seq![p] + cfb8_decrypt_spec(
            key,
            r1,
            a.skip(1),
        ));
        assert(whole =~= cfb8_decrypt_spec(key, register, a) + cfb8_decrypt_spec(
            key,
            next_register(register, a),
            b,
        ));
    }
}

/// The two ends of a connection agree on the whole stream: a decryptor that
/// starts from the encryptor's key and register, and reads all the
/// ciphertext the encryptor made, has recovered all the plaintext written.
pub proof fn lemma_whole_stream_recovered(e: EncryptorCore, d: DecryptorCore)
    requires
        e.stream_holds(),
        d.stream_holds(),
        d.cipher().key() == e.cipher().key(),
        d.start() == e.start(),
        d.received() == e.produced(),
    ensures
        d.recovered() == e.plaintext(),
        d.cipher().register() == e.cipher().register(),
{
    lemma_decrypt_encrypt(e.cipher().key(), e.start(), e.plaintext());
}

/// The two ends stay in step: a decryptor that starts where the encryptor
/// started and is fed the encryptor's output recovers each write, and both
/// registers move on to the same place.
pub proof fn lemma_ends_in_step(
    enc_before: CipherState,
    enc_after: CipherState,
    ciphertext: Seq<u8>,
    plain: Seq<u8>,
    dec_before: CipherState,
    dec_after: CipherState,
    recovered: Seq<u8>,
)
    requires
        dec_before.key() == enc_before.key(),
        dec_before.register() == enc_before.register(),
        ciphertext == cfb8_encrypt_spec(enc_before.key(), enc_before.register(), plain),
        enc_after.key() == enc_before.key(),
        enc_after.register() == next_register(enc_before.register(), ciphertext),
        recovered == cfb8_decrypt_spec(dec_before.key(), dec_before.register(), ciphertext),
        dec_after.key() == dec_before.key(),
        dec_after.register() == next_register(dec_before.register(), ciphertext),
    ensures
        recovered == plain,
        dec_after.key() == enc_after.key(),
        dec_after.register() == enc_after.register(),
{
    lemma_decrypt_encrypt(enc_before.key(), enc_before.register(), plain);
}

} // verus!
