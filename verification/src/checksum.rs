//! The checksum of the files of a disc: the SHA3-256 digest of each file's
//! data, gathered in a setsum, which does not depend on the order of the
//! files.

use vstd::prelude::*;
use sha3::Digest;

verus! {

/// The SHA3-256 digest that the `sha3` crate computes.
pub uninterp spec fn sha3_256(data: Seq<u8>) -> Seq<u8>;

/// The eight columns of a setsum's state.
pub uninterp spec fn setsum_state(s: setsum::Setsum) -> Seq<int>;

#[verifier::external_type_specification]
#[verifier::external_body]
pub struct ExSetsum(setsum::Setsum);

/// The prime that column `i` of a setsum's state is reduced by.
pub open spec fn setsum_prime(i: int) -> int {
    if i == 0 {
        4294967291
    } else if i == 1 {
        4294967279
    } else if i == 2 {
        4294967231
    } else if i == 3 {
        4294967197
    } else if i == 4 {
        4294967189
    } else if i == 5 {
        4294967161
    } else if i == 6 {
        4294967143
    } else {
        4294967111
    }
}

/// `num` less `p` once when it is at least `p`.
pub open spec fn reduce(num: int, p: int) -> int {
    if num >= p {
        num - p
    } else {
        num
    }
}

/// The little-endian 32-bit number at `o` in `h`.
pub open spec fn le_u32_at(h: Seq<u8>, o: int) -> int {
    h[o] + h[o + 1] * 0x100 + h[o + 2] * 0x1_0000 + h[o + 3] * 0x100_0000
}

/// The state of a setsum holding nothing.
pub open spec fn zero_state() -> Seq<int> {
    Seq::new(8, |_i: int| 0int)
}

/// The state that a 32-byte hash stands for: eight little-endian columns,
/// each reduced by its prime.
pub open spec fn hash_state(h: Seq<u8>) -> Seq<int> {
    Seq::new(8, |i: int| reduce(le_u32_at(h, 4 * i), setsum_prime(i)))
}

/// The state that an item stands for: that of its SHA3-256 digest.
pub open spec fn item_state(item: Seq<u8>) -> Seq<int> {
    hash_state(sha3_256(item))
}

/// Two states added column by column, each modulo its prime.
pub open spec fn add_state(a: Seq<int>, b: Seq<int>) -> Seq<int> {
    Seq::new(8, |i: int| reduce(a[i] + b[i], setsum_prime(i)))
}

/// The four little-endian bytes of `v`.
pub open spec fn le_bytes(v: int) -> Seq<u8> {
    seq![(v % 0x100) as u8, ((v / 0x100) % 0x100) as u8, ((v / 0x1_0000) % 0x100) as u8, ((v / 0x100_0000) % 0x100) as u8]
}

/// The 32 bytes of a setsum's digest: its columns, little-endian.
pub open spec fn state_bytes(s: Seq<int>) -> Seq<u8> {
    le_bytes(s[0]) + le_bytes(s[1]) + le_bytes(s[2]) + le_bytes(s[3]) + le_bytes(s[4]) + le_bytes(s[5]) + le_bytes(s[6])
        + le_bytes(s[7])
}

/// `sha3::Sha3_256::digest`: the SHA3-256 digest of `data`, named by
/// `sha3_256`, 32 bytes.
#[verifier::external_body]
fn sha3_digest(data: &[u8]) -> (r: [u8; 32])
    ensures
        r@ == sha3_256(data@),
{
    sha3::Sha3_256::digest(data).into()
}

/// `setsum::Setsum::default`: a state of eight zero columns.
#[verifier::external_body]
fn setsum_empty() -> (r: setsum::Setsum)
    ensures
        setsum_state(r) == zero_state(),
{
    setsum::Setsum::default()
}

/// `setsum::Setsum::insert`: adds the state of `item` (the reduced columns
/// of its SHA3-256 digest) to the state, column by column, each modulo its
/// prime (`add_state`).
#[verifier::external_body]
fn setsum_insert(s: &mut setsum::Setsum, item: &[u8])
    ensures
        setsum_state(*final(s)) == add_state(setsum_state(*old(s)), item_state(item@)),
{
    s.insert(item)
}

/// `setsum::Setsum::digest`: the columns of the state, little-endian.
#[verifier::external_body]
fn setsum_digest(s: &setsum::Setsum) -> (r: [u8; 32])
    ensures
        r@ == state_bytes(setsum_state(*s)),
{
    s.digest()
}

/// The SHA3-256 digests of the files' data.
pub open spec fn file_hashes(files: Seq<Seq<u8>>) -> Seq<Seq<u8>> {
    Seq::new(files.len(), |i: int| sha3_256(files[i]))
}

/// The views of the files' data.
pub open spec fn files_view(files: Seq<Vec<u8>>) -> Seq<Seq<u8>> {
    Seq::new(files.len(), |i: int| files[i]@)
}

/// The state of a setsum into which the first `n` of `items` were
/// inserted, in order.
pub open spec fn state_of(items: Seq<Seq<u8>>, n: int) -> Seq<int>
    decreases n,
{
    if n <= 0 {
        zero_state()
    } else {
        add_state(state_of(items, n - 1), item_state(items[n - 1]))
    }
}

/// The checksum of files with the data `files`: the digest of a setsum of
/// the SHA3-256 digests of their data.
pub open spec fn checksum_spec(files: Seq<Seq<u8>>) -> Seq<u8> {
    state_bytes(state_of(file_hashes(files), files.len() as int))
}

/// Computes the checksum of files from their data (see `checksum_spec`).
pub fn calculate_checksum(files: &[Vec<u8>]) -> (r: [u8; 32])
    ensures
        r@ == checksum_spec(files_view(files@)),
{
    let ghost fv = files_view(files@);
    let mut sum = setsum_empty();
    let mut i: usize = 0;
    while i < files.len()
        invariant
            i <= files@.len(),
            fv == files_view(files@),
            setsum_state(sum) == state_of(file_hashes(fv), i as int),
        decreases files@.len() - i,
    {
        let hash = sha3_digest(files[i].as_slice());
        assert(hash@ == file_hashes(fv)[i as int]);
        setsum_insert(&mut sum, &hash);
        i = i + 1;
    }
    setsum_digest(&sum)
}

/// The sum of column `c` of the states of the first `n` items.
pub open spec fn column_sum(items: Seq<Seq<u8>>, n: int, c: int) -> int
    decreases n,
{
    if n <= 0 {
        0
    } else {
        column_sum(items, n - 1, c) + item_state(items[n - 1])[c]
    }
}

/// Each column of an item's state is below its prime.
proof fn lemma_item_state_reduced(item: Seq<u8>, c: int)
    requires
        0 <= c < 8,
    ensures
        0 <= item_state(item)[c] < setsum_prime(c),
{
    let h = sha3_256(item);
    assert(0 <= le_u32_at(h, 4 * c) < 0x1_0000_0000) by {
        let o = 4 * c;
        assert(0 <= h[o] < 256 && 0 <= h[o + 1] < 256 && 0 <= h[o + 2] < 256 && 0 <= h[o + 3] < 256);
    }
}

/// Column `c` of the state is the column's sum modulo its prime.
proof fn lemma_state_column(items: Seq<Seq<u8>>, n: int, c: int)
    requires
        0 <= c < 8,
        0 <= n <= items.len(),
    ensures
        state_of(items, n)[c] == column_sum(items, n, c) % setsum_prime(c),
    decreases n,
{
    let p = setsum_prime(c);
    if n > 0 {
        lemma_state_column(items, n - 1, c);
        lemma_item_state_reduced(items[n - 1], c);
        let a = column_sum(items, n - 1, c);
        let x = item_state(items[n - 1])[c];
        assert(state_of(items, n)[c] == reduce(a % p + x, p));
        let q = a / p;
        let r = a % p;
        vstd::arithmetic::div_mod::lemma_fundamental_div_mod(a, p);
        assert(a == p * q + r);
        assert(a == q * p + r) by (nonlinear_arith)
            requires
                a == p * q + r,
        ;
        if r + x >= p {
            assert(a + x == (q + 1) * p + (r + x - p)) by (nonlinear_arith)
                requires
                    a == q * p + r,
            ;
            vstd::arithmetic::div_mod::lemma_fundamental_div_mod_converse(a + x, p, q + 1, r + x - p);
        } else {
            vstd::arithmetic::div_mod::lemma_fundamental_div_mod_converse(a + x, p, q, r + x);
        }
    } else {
        assert(state_of(items, n)[c] == 0);
    }
}

/// Removing item `j` takes its column value out of the column's sum.
proof fn lemma_column_sum_remove(items: Seq<Seq<u8>>, j: int, c: int)
    requires
        0 <= j < items.len(),
    ensures
        column_sum(items, items.len() as int, c) == column_sum(items.remove(j), items.len() - 1, c) + item_state(
            items[j],
        )[c],
    decreases items.len(),
{
    let n = items.len() as int;
    if j == n - 1 {
        assert(items.remove(j) =~= items.take(n - 1));
        lemma_column_sum_prefix(items, items.take(n - 1), n - 1, c);
    } else {
        let init = items.drop_last();
        lemma_column_sum_remove(init, j, c);
        lemma_column_sum_prefix(items, init, n - 1, c);
        let r = items.remove(j);
        assert(r.drop_last() =~= init.remove(j));
        assert(r.last() == items.last());
        lemma_column_sum_prefix(r, r.drop_last(), n - 2, c);
    }
}

/// The column's sum over the first `n` items depends on those items only.
proof fn lemma_column_sum_prefix(a: Seq<Seq<u8>>, b: Seq<Seq<u8>>, n: int, c: int)
    requires
        0 <= n <= a.len(),
        n <= b.len(),
        forall|k: int| 0 <= k < n ==> a[k] == b[k],
    ensures
        column_sum(a, n, c) == column_sum(b, n, c),
    decreases n,
{
    if n > 0 {
        lemma_column_sum_prefix(a, b, n - 1, c);
    }
}

/// Items that are the same up to order have the same column sums.
proof fn lemma_column_sum_perm(a: Seq<Seq<u8>>, b: Seq<Seq<u8>>, c: int)
    requires
        a.to_multiset() == b.to_multiset(),
    ensures
        column_sum(a, a.len() as int, c) == column_sum(b, b.len() as int, c),
    decreases a.len(),
{
    broadcast use vstd::multiset::group_multiset_axioms;
    broadcast use vstd::seq_lib::group_to_multiset_ensures;
    if a.len() == 0 {
        assert(b.to_multiset().len() == 0);
    } else {
        let x = a.last();
        let a1 = a.drop_last();
        assert(a =~= a1.push(x));
        assert(a.to_multiset().count(x) > 0);
        assert(b.contains(x));
        let j = choose|j: int| 0 <= j < b.len() && b[j] == x;
        let b1 = b.remove(j);
        assert(a1.to_multiset() =~= a.to_multiset().remove(x));
        assert(b1.to_multiset() =~= b.to_multiset().remove(x));
        lemma_column_sum_perm(a1, b1, c);
        lemma_column_sum_remove(b, j, c);
        lemma_column_sum_prefix(a, a1, a.len() - 1, c);
    }
}

/// The digests of files with the same data, in any order, are the same up
/// to order.
proof fn lemma_hashes_perm(a: Seq<Seq<u8>>, b: Seq<Seq<u8>>)
    requires
        a.to_multiset() == b.to_multiset(),
    ensures
        file_hashes(a).to_multiset() == file_hashes(b).to_multiset(),
    decreases a.len(),
{
    broadcast use vstd::multiset::group_multiset_axioms;
    broadcast use vstd::seq_lib::group_to_multiset_ensures;
    if a.len() == 0 {
        assert(b.to_multiset().len() == 0);
        assert(b.len() == 0);
        assert(file_hashes(a) =~= file_hashes(b));
    } else {
        let x = a.last();
        let a1 = a.drop_last();
        assert(a =~= a1.push(x));
        assert(a.to_multiset().count(x) > 0);
        assert(b.contains(x));
        let j = choose|j: int| 0 <= j < b.len() && b[j] == x;
        let b1 = b.remove(j);
        assert(a1.to_multiset() =~= a.to_multiset().remove(x));
        assert(b1.to_multiset() =~= b.to_multiset().remove(x));
        lemma_hashes_perm(a1, b1);
        let ha = file_hashes(a);
        let hb = file_hashes(b);
        assert(ha =~= file_hashes(a1).push(sha3_256(x)));
        assert(hb.remove(j) =~= file_hashes(b1));
        assert(hb[j] == sha3_256(x));
        assert(hb.to_multiset().remove(sha3_256(x)) =~= file_hashes(b1).to_multiset());
        assert(hb.to_multiset().count(sha3_256(x)) > 0) by {
            assert(hb.contains(sha3_256(x)));
        }
        assert(hb.to_multiset() =~= file_hashes(b1).to_multiset().insert(sha3_256(x)));
        assert(ha.to_multiset() =~= file_hashes(a1).to_multiset().insert(sha3_256(x)));
    }
}

/// The checksum does not depend on the order of the files: files with the
/// same data, in any order, have the same checksum.
pub proof fn lemma_checksum_order_free(a: Seq<Seq<u8>>, b: Seq<Seq<u8>>)
    requires
        a.to_multiset() == b.to_multiset(),
    ensures
        checksum_spec(a) == checksum_spec(b),
{
    broadcast use vstd::seq_lib::group_to_multiset_ensures;
    let ha = file_hashes(a);
    let hb = file_hashes(b);
    lemma_hashes_perm(a, b);
    assert(a.len() == a.to_multiset().len());
    assert(b.len() == b.to_multiset().len());
    assert forall|c: int| 0 <= c < 8 implies #[trigger] state_of(ha, a.len() as int)[c] == state_of(
        hb,
        b.len() as int,
    )[c] by {
        lemma_state_column(ha, a.len() as int, c);
        lemma_state_column(hb, b.len() as int, c);
        lemma_column_sum_perm(ha, hb, c);
    }
    assert(state_of(ha, a.len() as int) =~= state_of(hb, b.len() as int));
}

} // verus!
