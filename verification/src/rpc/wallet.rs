//! What the wallet tells of itself.

use vstd::prelude::*;
use vstd::utf8::encode_utf8;

verus! {

/// An address of the wallet, with its text.
#[derive(Debug)]
pub struct WalletAddress {
    pub address: [u8; 20],
    pub base58: String,
}

/// Whether a byte string comes before another, or is the same.
pub open spec fn not_after(a: Seq<u8>, b: Seq<u8>) -> bool
    decreases a.len(),
{
    if a.len() == 0 {
        true
    } else if b.len() == 0 {
        false
    } else {
        a[0] < b[0] || (a[0] == b[0] && not_after(a.skip(1), b.skip(1)))
    }
}

/// The bytes that addresses are sorted by.
pub open spec fn sort_key(address: WalletAddress) -> Seq<u8> {
    encode_utf8(address.base58@)
}

/// Whether addresses are sorted by their texts.
pub open spec fn is_sorted(addresses: Seq<WalletAddress>) -> bool {
    forall|i: int, j: int|
        0 <= i < j < addresses.len() ==> not_after(
            sort_key(#[trigger] addresses[i]),
            sort_key(#[trigger] addresses[j]),
        )
}

fn text_not_after(a: &[u8], b: &[u8]) -> (res: bool)
    ensures
        res == not_after(a@, b@),
{
    let mut i: usize = 0;
    assert(a@.skip(0) =~= a@);
    assert(b@.skip(0) =~= b@);
    while i < a.len() && i < b.len() && a[i] == b[i]
        invariant
            i <= a@.len(),
            i <= b@.len(),
            not_after(a@, b@) == not_after(a@.skip(i as int), b@.skip(i as int)),
        decreases a@.len() - i,
    {
        proof {
            assert(a@.skip(i as int).skip(1) =~= a@.skip(i + 1));
            assert(b@.skip(i as int).skip(1) =~= b@.skip(i + 1));
        }
        i += 1;
    }
    if i >= a.len() {
        return true;
    }
    if i >= b.len() {
        return false;
    }
    a[i] < b[i]
}

proof fn lemma_not_after_is_total(a: Seq<u8>, b: Seq<u8>)
    ensures
        not_after(a, b) || not_after(b, a),
    decreases a.len(),
{
    if a.len() > 0 && b.len() > 0 {
        lemma_not_after_is_total(a.skip(1), b.skip(1));
    }
}

proof fn lemma_not_after_is_transitive(a: Seq<u8>, b: Seq<u8>, c: Seq<u8>)
    requires
        not_after(a, b),
        not_after(b, c),
    ensures
        not_after(a, c),
    decreases a.len(),
{
    if a.len() > 0 && b.len() > 0 && c.len() > 0 {
        if a[0] == b[0] && b[0] == c[0] {
            lemma_not_after_is_transitive(a.skip(1), b.skip(1), c.skip(1));
        }
    }
}

proof fn lemma_insert(addresses: Seq<WalletAddress>, i: int, address: WalletAddress)
    requires
        0 <= i <= addresses.len(),
    ensures
        addresses.insert(i, address).to_multiset() == addresses.to_multiset().insert(address),
{
    let after = addresses.insert(i, address);
    after.to_multiset_ensures();
    assert(after.remove(i) =~= addresses);
    assert(after[i] == address);
    assert(after.contains(address));
    assert(after.to_multiset() =~= addresses.to_multiset().insert(address));
}

fn insert_sorted(sorted: &mut Vec<WalletAddress>, address: WalletAddress)
    requires
        is_sorted(old(sorted)@),
    ensures
        is_sorted(final(sorted)@),
        final(sorted)@.to_multiset() == old(sorted)@.to_multiset().insert(address),
{
    let ghost before = sorted@;
    let mut i: usize = sorted.len();
    while i > 0 && !text_not_after(
        sorted[i - 1].base58.as_str().as_bytes(),
        address.base58.as_str().as_bytes(),
    )
        invariant
            i <= sorted@.len(),
            sorted@ == before,
            forall|j: int|
                i <= j < sorted@.len() ==> !not_after(
                    sort_key(#[trigger] sorted@[j]),
                    sort_key(address),
                ),
        decreases i,
    {
        i -= 1;
    }
    proof {
        lemma_insert(before, i as int, address);
    }
    sorted.insert(i, address);
    proof {
        let after = sorted@;
        assert forall|a: int, b: int| 0 <= a < b < after.len() implies not_after(
            sort_key(#[trigger] after[a]),
            sort_key(#[trigger] after[b]),
        ) by {
            let a0 = if a < i { a } else { a - 1 };
            let b0 = if b < i { b } else { b - 1 };
            if a == i {
                assert(after[b] == before[b - 1]);
                lemma_not_after_is_total(sort_key(address), sort_key(before[b - 1]));
            } else if b == i {
                assert(after[a] == before[a]);
                assert(not_after(sort_key(before[i - 1]), sort_key(address)));
                if a < i - 1 {
                    lemma_not_after_is_transitive(
                        sort_key(before[a]),
                        sort_key(before[i - 1]),
                        sort_key(address),
                    );
                }
            } else {
                assert(after[a] == before[a0] && after[b] == before[b0]);
            }
        }
    }
}

/// The addresses of the wallet, sorted by their texts.
pub fn get_wallet_addresses(addresses: Vec<WalletAddress>) -> (sorted: Vec<WalletAddress>)
    ensures
        is_sorted(sorted@),
        sorted@.to_multiset() == addresses@.to_multiset(),
{
    let mut left = addresses;
    let mut sorted: Vec<WalletAddress> = Vec::new();
    let ghost all = addresses@;
    let ghost mut n: int = 0;
    assert(all.skip(0) =~= all);
    assert(all.take(0) =~= sorted@);
    while left.len() > 0
        invariant
            0 <= n <= all.len(),
            left@ == all.skip(n),
            is_sorted(sorted@),
            sorted@.to_multiset() == all.take(n).to_multiset(),
        decreases left@.len(),
    {
        let address = left.remove(0);
        proof {
            assert(left@ =~= all.skip(n + 1));
            lemma_insert(all.take(n), n, address);
            assert(all.take(n).insert(n, address) =~= all.take(n + 1));
        }
        insert_sorted(&mut sorted, address);
        proof {
            n = n + 1;
        }
    }
    assert(all.take(all.len() as int) =~= all);
    sorted
}

/// How often a character occurs in a text.
pub open spec fn count_of(text: Seq<char>, c: char) -> nat
    decreases text.len(),
{
    if text.len() == 0 {
        0
    } else {
        count_of(text.drop_last(), c) + if text.last() == c {
            1nat
        } else {
            0nat
        }
    }
}

/// Whether a text is twelve words of the letters from `a` to `z`, with one
/// space between each two and none before the first or after the last.
pub open spec fn is_phrase(text: Seq<char>) -> bool {
    &&& count_of(text, ' ') == 11
    &&& text.len() > 0 && text[0] != ' ' && text.last() != ' '
    &&& forall|i: int|
        0 <= i < text.len() ==> (#[trigger] text[i] == ' ' || 97 <= text[i] as u32 <= 122)
    &&& forall|i: int| 0 < i < text.len() && text[i - 1] == ' ' ==> #[trigger] text[i] != ' '
}

/// Whether `bip39::Mnemonic::validate` takes a text as an English seed phrase: all
/// of its words are in the English list, and its last word holds the checksum of
/// the others.
pub uninterp spec fn is_mnemonic(text: Seq<char>) -> bool;

/// Calls `bip39::Mnemonic::new` for twelve English words, and claims that the
/// phrase is twelve words of small letters with one space between each two, and
/// that `bip39::Mnemonic::validate` takes it. Which of these phrases it is, chance
/// decides.
#[verifier::external_body]
fn new_mnemonic() -> (phrase: String)
    ensures
        is_phrase(phrase@),
        is_mnemonic(phrase@),
{
    bip39::Mnemonic::new(bip39::MnemonicType::Words12, bip39::Language::English).to_string()
}

/// A new seed phrase of twelve words of the English list, with their checksum.
/// Which of these phrases it is, chance decides.
pub fn generate_mnemonic() -> (phrase: String)
    ensures
        is_phrase(phrase@),
        is_mnemonic(phrase@),
{
    new_mnemonic()
}

/// A byte string comes before another, or is the same, exactly if it is the start of
/// the other, or has the smaller byte where the two differ first.
pub proof fn law_texts_are_ordered_by_the_first_difference(a: Seq<u8>, b: Seq<u8>, i: int)
    requires
        0 <= i <= a.len(),
        i <= b.len(),
        forall|j: int| 0 <= j < i ==> #[trigger] a[j] == b[j],
        i < a.len() && i < b.len() ==> a[i] != b[i],
    ensures
        not_after(a, b) <==> i == a.len() || (i < b.len() && a[i] < b[i]),
    decreases i,
{
    if i > 0 {
        let (x, y) = (a.skip(1), b.skip(1));
        assert(a[0] == b[0]);
        assert forall|j: int| 0 <= j < i - 1 implies #[trigger] x[j] == y[j] by {
            assert(a[j + 1] == b[j + 1]);
        }
        law_texts_are_ordered_by_the_first_difference(x, y, i - 1);
    }
}

/// Of two addresses in a sorted list, the text of the earlier one is the start of
/// that of the later one, or has the smaller byte where the two differ first.
pub proof fn law_addresses_are_sorted_by_their_texts(
    addresses: Seq<WalletAddress>,
    i: int,
    j: int,
    k: int,
)
    requires
        is_sorted(addresses),
        0 <= i < j < addresses.len(),
        ({
            let a = encode_utf8(addresses[i].base58@);
            let b = encode_utf8(addresses[j].base58@);
            &&& 0 <= k <= a.len() && k <= b.len()
            &&& forall|m: int| 0 <= m < k ==> #[trigger] a[m] == b[m]
            &&& k < a.len() && k < b.len() ==> a[k] != b[k]
        }),
    ensures
        ({
            let a = encode_utf8(addresses[i].base58@);
            let b = encode_utf8(addresses[j].base58@);
            k == a.len() || (k < b.len() && a[k] < b[k])
        }),
{
    let a = encode_utf8(addresses[i].base58@);
    let b = encode_utf8(addresses[j].base58@);
    law_texts_are_ordered_by_the_first_difference(a, b, k);
    assert(not_after(sort_key(addresses[i]), sort_key(addresses[j])));
}

} // verus!
