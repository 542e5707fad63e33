use vstd::prelude::*;
use vstd::string::StringSliceAdditionalSpecFns;

verus! {

/// Number of bytes in a derived key.
pub const KEY_LEN: usize = 32;

/// XOR of the bytes `b[i]` whose key slot `(start + i) % 32` is `lane`
/// (`start` is the position of `b[0]` in the whole passphrase).
pub open spec fn xor_lane(b: Seq<u8>, start: int, lane: int) -> u8
    decreases b.len(),
{
    if b.len() == 0 {
        0
    } else {
        let rest = xor_lane(b.drop_last(), start, lane);
        if (start + b.len() - 1) % 32 == lane {
            rest ^ b.last()
        } else {
            rest
        }
    }
}

/// The key folded from a passphrase's bytes: slot `j` is the XOR of every byte
/// whose index is `j` modulo 32.
pub open spec fn fold_key(b: Seq<u8>) -> Seq<u8> {
    Seq::new(KEY_LEN as nat, |lane: int| xor_lane(b, 0, lane))
}

/// Derives the 32-byte key from the UTF-8 bytes of `password`.
pub fn password_to_key(password: &str) -> (key: [u8; 32])
    ensures
        key@ == fold_key(password.spec_bytes()),
        password@.len() == 0 ==> key@ == Seq::new(32, |_i: int| 0u8),
{
    let mut key = [0u8; 32];
    let bytes = password.as_bytes();
    proof {
        assert(bytes@.take(0) =~= Seq::<u8>::empty());
        assert(key@ =~= fold_key(bytes@.take(0)));
    }
    let mut i: usize = 0;
    while i < bytes.len()
        invariant
            i <= bytes@.len(),
            key@ == fold_key(bytes@.take(i as int)),
        decreases bytes@.len() - i,
    {
        let slot = i % KEY_LEN;
        key[slot] = key[slot] ^ bytes[i];
        proof {
            let prev = bytes@.take(i as int);
            let next = bytes@.take(i + 1);
            assert(next.drop_last() =~= prev);
            assert(next.last() == bytes@[i as int]);
            assert(key@ =~= fold_key(next));
        }
        i = i + 1;
    }
    proof {
        assert(bytes@.take(i as int) =~= bytes@);
        if password@.len() == 0 {
            assert(bytes@.len() == 0);
            assert(fold_key(bytes@) =~= Seq::new(32, |_i: int| 0u8));
        }
    }
    key
}

proof fn lemma_xor_zero(x: u8)
    ensures
        x ^ 0u8 == x,
{
    assert(x ^ 0u8 == x) by (bit_vector);
}

proof fn lemma_xor_assoc(x: u8, y: u8, z: u8)
    ensures
        (x ^ y) ^ z == x ^ (y ^ z),
{
    assert((x ^ y) ^ z == x ^ (y ^ z)) by (bit_vector);
}

/// Folding `a + s` combines the folds of `a` and of `s` placed after it.
proof fn lemma_xor_lane_concat(a: Seq<u8>, s: Seq<u8>, start: int, lane: int)
    ensures
        xor_lane(a + s, start, lane) == xor_lane(a, start, lane) ^ xor_lane(s, start + a.len(), lane),
    decreases s.len(),
{
    if s.len() == 0 {
        assert(a + s =~= a);
        lemma_xor_zero(xor_lane(a, start, lane));
    } else {
        lemma_xor_lane_concat(a, s.drop_last(), start, lane);
        assert((a + s).drop_last() =~= a + s.drop_last());
        assert((a + s).last() == s.last());
        let x = xor_lane(a, start, lane);
        let y = xor_lane(s.drop_last(), start + a.len(), lane);
        lemma_xor_assoc(x, y, s.last());
    }
}

/// Shifting a run of bytes by a whole key length leaves its lanes unchanged.
proof fn lemma_xor_lane_period(s: Seq<u8>, start: int, lane: int)
    requires
        start >= 0,
    ensures
        xor_lane(s, start + 32, lane) == xor_lane(s, start, lane),
    decreases s.len(),
{
    if s.len() > 0 {
        lemma_xor_lane_period(s.drop_last(), start, lane);
        assert((start + 32 + s.len() - 1) % 32 == (start + s.len() - 1) % 32);
    }
}

/// The same passphrase always yields the same key, and the empty passphrase
/// yields the all-zero key.
pub proof fn lemma_key_deterministic(p: &str, q: &str)
    requires
        p@ == q@,
    ensures
        fold_key(p.spec_bytes()) == fold_key(q.spec_bytes()),
        fold_key(Seq::empty()) == Seq::new(32, |_i: int| 0u8),
{
    assert(fold_key(Seq::empty()) =~= Seq::new(32, |_i: int| 0u8));
}

/// Appending the same 32-byte run twice to a passphrase's bytes leaves the
/// key unchanged: the key depends only on the XOR-fold of the bytes, so a
/// 64-byte passphrase that repeats a 32-byte pattern gives the all-zero key.
pub proof fn lemma_repeated_block_cancels(p: Seq<u8>, w: Seq<u8>)
    requires
        w.len() == 32,
    ensures
        fold_key(p + w + w) == fold_key(p),
{
    assert forall|lane: int| 0 <= lane < 32 implies xor_lane(p + w + w, 0, lane) == xor_lane(
        p,
        0,
        lane,
    ) by {
        lemma_xor_lane_concat(p + w, w, 0, lane);
        lemma_xor_lane_concat(p, w, 0, lane);
        lemma_xor_lane_period(w, p.len() as int, lane);
        let x = xor_lane(p, 0, lane);
        let y = xor_lane(w, p.len() as int, lane);
        assert((x ^ y) ^ y == x) by (bit_vector);
    }
    assert(fold_key(p + w + w) =~= fold_key(p));
}

} // verus!
