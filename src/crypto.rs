//! XOR secret sharing: a secret is split into parts, none of which alone
//! says anything about it but its length; XOR-folding all parts gives it back.
use rand::RngCore;
use vstd::prelude::*;

verus! {

/// Position-wise XOR of `a` with `b` over their overlap; bytes of `a` past
/// the end of `b` are kept.
pub open spec fn xor_bytes(a: Seq<u8>, b: Seq<u8>) -> Seq<u8> {
    Seq::new(a.len(), |i: int| if i < b.len() { a[i] ^ b[i] } else { a[i] })
}

/// `n` zero bytes.
pub open spec fn zeros(n: nat) -> Seq<u8> {
    Seq::new(n, |i: int| 0u8)
}

/// XOR-fold of `parts`, in order, onto `acc`.
pub open spec fn xor_fold(acc: Seq<u8>, parts: Seq<Seq<u8>>) -> Seq<u8>
    decreases parts.len(),
{
    if parts.len() == 0 {
        acc
    } else {
        xor_bytes(xor_fold(acc, parts.drop_last()), parts.last())
    }
}

/// What combining `parts` yields: the fold of all of them onto as many zero
/// bytes as the first part holds.
pub open spec fn combined(parts: Seq<Seq<u8>>) -> Seq<u8> {
    if parts.len() == 0 {
        Seq::empty()
    } else {
        xor_fold(zeros(parts[0].len()), parts)
    }
}

/// The byte sequences that `parts` hold.
pub open spec fn views(parts: Seq<Vec<u8>>) -> Seq<Seq<u8>> {
    parts.map_values(|p: Vec<u8>| p@)
}

/// Every one of `parts` holds `n` bytes.
pub open spec fn all_of_len(parts: Seq<Seq<u8>>, n: nat) -> bool {
    forall|i: int| 0 <= i < parts.len() ==> #[trigger] parts[i].len() == n
}

/// The shape of a split of `secret` into `n` parts: none for zero, the secret
/// itself for one; otherwise `n` parts of the secret's length, the last of
/// which is the secret XOR the fold of all the others.
pub open spec fn is_split(parts: Seq<Seq<u8>>, secret: Seq<u8>, n: nat) -> bool {
    if n == 0 {
        parts.len() == 0
    } else if n == 1 {
        parts == seq![secret]
    } else {
        &&& parts.len() == n
        &&& all_of_len(parts, secret.len())
        &&& parts.last() == xor_bytes(xor_fold(zeros(secret.len()), parts.drop_last()), secret)
    }
}

proof fn lemma_xor_fold_len(acc: Seq<u8>, parts: Seq<Seq<u8>>)
    ensures
        xor_fold(acc, parts).len() == acc.len(),
    decreases parts.len(),
{
    if parts.len() > 0 {
        lemma_xor_fold_len(acc, parts.drop_last());
    }
}

proof fn lemma_xor_zeros(s: Seq<u8>)
    ensures
        xor_bytes(zeros(s.len()), s) == s,
{
    assert forall|i: int| 0 <= i < s.len() implies xor_bytes(zeros(s.len()), s)[i] == s[i] by {
        let b = s[i];
        assert(0u8 ^ b == b) by (bit_vector);
    }
    assert(xor_bytes(zeros(s.len()), s) =~= s);
}

proof fn lemma_xor_cancel(f: Seq<u8>, s: Seq<u8>)
    requires
        f.len() == s.len(),
    ensures
        xor_bytes(f, xor_bytes(f, s)) == s,
{
    assert forall|i: int| 0 <= i < s.len() implies xor_bytes(f, xor_bytes(f, s))[i] == s[i] by {
        let a = f[i];
        let b = s[i];
        assert(a ^ (a ^ b) == b) by (bit_vector);
    }
    assert(xor_bytes(f, xor_bytes(f, s)) =~= s);
}

/// Combining the parts of any split of `secret` into at least one part gives
/// back `secret` exactly.
pub proof fn lemma_combine_split(secret: Seq<u8>, n: nat, parts: Seq<Seq<u8>>)
    requires
        n >= 1,
        is_split(parts, secret, n),
    ensures
        combined(parts) == secret,
{
    if n == 1 {
        assert(parts.drop_last() =~= Seq::<Seq<u8>>::empty());
        lemma_xor_zeros(secret);
    } else {
        assert(parts[0].len() == secret.len());
        let f = xor_fold(zeros(secret.len()), parts.drop_last());
        lemma_xor_fold_len(zeros(secret.len()), parts.drop_last());
        lemma_xor_cancel(f, secret);
    }
}

/// XORs `b` into `a`, position by position, over the overlap of the two.
pub fn xor_in_place(a: &mut [u8], b: &[u8])
    ensures
        final(a)@ == xor_bytes(old(a)@, b@),
{
    let n = a.len();
    let m = if b.len() < n {
        b.len()
    } else {
        n
    };
    let mut i: usize = 0;
    while i < m
        invariant
            a@.len() == n,
            n == old(a)@.len(),
            m <= n,
            m <= b@.len(),
            m == n || m == b@.len(),
            i <= m,
            forall|j: int| 0 <= j < i ==> a@[j] == old(a)@[j] ^ b@[j],
            forall|j: int| i <= j < n ==> a@[j] == old(a)@[j],
        decreases m - i,
    {
        a[i] = a[i] ^ b[i];
        i = i + 1;
    }
    assert forall|j: int| 0 <= j < n implies a@[j] == xor_bytes(old(a)@, b@)[j] by {
        if j < b@.len() {
            assert(j < i);
        }
    }
    assert(a@ =~= xor_bytes(old(a)@, b@));
}

pub(crate) fn zero_bytes(n: usize) -> (r: Vec<u8>)
    ensures
        r@ == zeros(n as nat),
{
    let mut r: Vec<u8> = Vec::new();
    let mut i: usize = 0;
    while i < n
        invariant
            i <= n,
            r@ == zeros(i as nat),
        decreases n - i,
    {
        r.push(0u8);
        i = i + 1;
        assert(r@ =~= zeros(i as nat));
    }
    r
}

/// Relies on rand's `ThreadRng::fill_bytes`: it overwrites the buffer in
/// place with random bytes, keeping its length.
#[verifier::external_body]
pub(crate) fn fill_random(buf: &mut Vec<u8>)
    ensures
        final(buf)@.len() == old(buf)@.len(),
{
    rand::thread_rng().fill_bytes(buf.as_mut_slice())
}

/// Splits `secret` into `num_parts` parts: `num_parts - 1` random ones and a
/// last one that is the secret XOR all of them.
pub fn split_secret(secret: &[u8], num_parts: usize) -> (parts: Vec<Vec<u8>>)
    ensures
        is_split(views(parts@), secret@, num_parts as nat),
{
    if num_parts == 0 {
        let parts: Vec<Vec<u8>> = Vec::new();
        assert(views(parts@) =~= Seq::<Seq<u8>>::empty());
        return parts;
    }
    if num_parts == 1 {
        let mut parts: Vec<Vec<u8>> = Vec::new();
        parts.push(vstd::slice::slice_to_vec(secret));
        assert(views(parts@) =~= seq![secret@]);
        return parts;
    }
    let len = secret.len();
    let mut parts: Vec<Vec<u8>> = Vec::new();
    let mut xor_sum = zero_bytes(len);
    let mut i: usize = 0;
    while i < num_parts - 1
        invariant
            num_parts >= 2,
            len == secret@.len(),
            i <= num_parts - 1,
            parts@.len() == i,
            all_of_len(views(parts@), len as nat),
            xor_sum@ == xor_fold(zeros(len as nat), views(parts@)),
        decreases num_parts - 1 - i,
    {
        let mut part = zero_bytes(len);
        fill_random(&mut part);
        xor_in_place(xor_sum.as_mut_slice(), part.as_slice());
        let ghost before = views(parts@);
        parts.push(part);
        assert(views(parts@).drop_last() =~= before);
        assert forall|j: int| 0 <= j < views(parts@).len() implies #[trigger] views(parts@)[j].len()
            == len by {
            if j < i {
                assert(views(parts@)[j] == before[j]);
            }
        }
        i = i + 1;
    }
    let ghost randoms = views(parts@);
    xor_in_place(xor_sum.as_mut_slice(), secret);
    parts.push(xor_sum);
    assert(views(parts@).drop_last() =~= randoms);
    proof {
        lemma_xor_fold_len(zeros(len as nat), randoms);
        assert forall|j: int| 0 <= j < views(parts@).len() implies #[trigger] views(parts@)[j].len()
            == len by {
            if j < num_parts - 1 {
                assert(views(parts@)[j] == randoms[j]);
            }
        }
    }
    parts
}

/// XOR-folds all `parts` onto as many zero bytes as the first one holds.
pub fn combine_secret(parts: &[Vec<u8>]) -> (secret: Vec<u8>)
    requires
        parts@.len() >= 1,
    ensures
        secret@ == combined(views(parts@)),
{
    let mut secret = zero_bytes(parts[0].len());
    let mut i: usize = 0;
    while i < parts.len()
        invariant
            i <= parts@.len(),
            parts@.len() >= 1,
            secret@ == xor_fold(zeros(parts@[0]@.len()), views(parts@.take(i as int))),
        decreases parts@.len() - i,
    {
        xor_in_place(secret.as_mut_slice(), parts[i].as_slice());
        assert(views(parts@.take(i + 1)).drop_last() =~= views(parts@.take(i as int)));
        i = i + 1;
    }
    assert(parts@.take(parts@.len() as int) =~= parts@);
    secret
}

} // verus!
