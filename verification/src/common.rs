//! Constants, keys and header arithmetic shared by every part of the system.

use vstd::prelude::*;

verus! {

/// The largest identifier that fits the six DSCP bits of the TOS byte.
pub const DSCP_ID_MAX: u8 = 63;

/// Where the TOS byte stands in an IPv4 header.
pub const IPV4_TOS_OFFSET: usize = 1;

/// Where the header checksum stands in an IPv4 header.
pub const IPV4_CHECK_OFFSET: usize = 10;

pub const IPPROTO_TCP: u8 = 6;

pub const IPPROTO_UDP: u8 = 17;

/// The counter slot for packets whose tag was recognised.
pub const CTR_TAGGED: u32 = 0;

/// The counter slot for IPv4 packets without a recognised tag.
pub const CTR_UNTAGGED: u32 = 1;

/// The counter slot for packets that are not IPv4 or whose tag cannot be read.
pub const CTR_SKIPPED: u32 = 2;

/// How many counter slots there are.
pub const COUNTER_SLOTS: u32 = 3;

/// The sixteen-bit one's-complement representative of a sum: zero stands for
/// itself only, and every positive sum for a value in `1..=0xffff`.
pub open spec fn fold16(sum: int) -> int {
    if sum == 0 {
        0
    } else {
        (sum - 1) % 0xffff + 1
    }
}

/// The sum of sixteen-bit words.
pub open spec fn word_sum(words: Seq<u16>) -> int
    decreases words.len(),
{
    if words.len() == 0 {
        0
    } else {
        word_sum(words.drop_last()) + words.last()
    }
}

/// The internet checksum of a header given as words, its own field being zero.
pub open spec fn internet_checksum(words: Seq<u16>) -> int {
    0xffff - fold16(word_sum(words))
}

/// The checksum that results when one word `old` of a header whose checksum
/// is `check` turns into `new`.
pub open spec fn checksum_after(check: u16, old: u16, new: u16) -> int {
    0xffff - fold16((0xffff - check) + (0xffff - old) + new)
}

/// The TOS byte with its DSCP bits replaced and its ECN bits kept.
pub open spec fn retagged_tos(tos: u8, dscp: u8) -> int {
    (dscp % 64) * 4 + tos % 4
}

/// Updates an internet checksum for one changed sixteen-bit word.
pub fn csum_replace2(check: u16, old: u16, new: u16) -> (r: u16)
    ensures
        r == checksum_after(check, old, new),
{
    assert(!check == 0xffff - check) by (bit_vector);
    assert(!old == 0xffff - old) by (bit_vector);
    let mut sum: u32 = (!check) as u32 + (!old) as u32 + new as u32;
    let ghost total: int = sum as int;
    assert((sum & 0xffff) == sum % 0x10000 && (sum >> 16) == sum / 0x10000) by (bit_vector);
    sum = (sum & 0xffff) + (sum >> 16);
    assert((sum & 0xffff) == sum % 0x10000 && (sum >> 16) == sum / 0x10000) by (bit_vector);
    sum = (sum & 0xffff) + (sum >> 16);
    assert(sum == fold16(total));
    let low: u16 = sum as u16;
    assert(!low == 0xffff - low) by (bit_vector);
    !low
}

/// Puts a DSCP value into a TOS byte, leaving the two ECN bits alone.
pub fn tos_with_dscp(tos: u8, dscp: u8) -> (r: u8)
    ensures
        r == retagged_tos(tos, dscp),
{
    assert(((dscp << 2) | (tos & 0x03)) == (dscp % 64) * 4 + tos % 4) by (bit_vector);
    (dscp << 2) | (tos & 0x03)
}

/// An address that an interface answers for: the interface's index and the
/// address as its four network-order bytes load on this machine.
#[derive(Clone, Copy, PartialEq, Eq, Structural, Hash, Debug)]
pub struct ArpKey {
    pub ifindex: u32,
    pub ip: u32,
}

/// One direction of a flow.
#[derive(Clone, Copy, PartialEq, Eq, Hash, Debug, Default)]
pub struct FlowKey {
    pub src: u32,
    pub dst: u32,
    pub sport: u16,
    pub dport: u16,
    pub proto: u8,
    pub _pad: [u8; 3],
}

/// The key of a flow, its padding zeroed.
pub open spec fn flow_key(src: u32, dst: u32, sport: u16, dport: u16, proto: u8) -> FlowKey {
    FlowKey { src, dst, sport, dport, proto, _pad: [0u8, 0u8, 0u8] }
}

impl FlowKey {
    /// The key of the opposite direction.
    pub open spec fn opposite(self) -> FlowKey {
        flow_key(self.dst, self.src, self.dport, self.sport, self.proto)
    }

    /// Whether the padding is zero, as it is in every key that `new` makes.
    pub open spec fn padded(self) -> bool {
        self._pad@ == seq![0u8, 0u8, 0u8]
    }

    pub fn new(src: u32, dst: u32, sport: u16, dport: u16, proto: u8) -> (key: Self)
        ensures
            key == flow_key(src, dst, sport, dport, proto),
            key.padded(),
    {
        let key = Self { src, dst, sport, dport, proto, _pad: [0u8, 0u8, 0u8] };
        assert(key._pad@ =~= seq![0u8, 0u8, 0u8]);
        key
    }

    pub fn reversed(&self) -> (key: Self)
        ensures
            key == self.opposite(),
            key.padded(),
    {
        Self::new(self.dst, self.src, self.dport, self.sport, self.proto)
    }
}

/// Reversing a flow key twice gives the key back.
pub proof fn law_reversed_is_an_involution(key: FlowKey)
    requires
        key.padded(),
    ensures
        key.opposite().opposite() == key,
{
    assert(key.opposite().opposite()._pad =~= key._pad) by {
        assert forall|i: int| 0 <= i < 3 implies #[trigger] key._pad[i] == 0u8 by {
            assert(key._pad@[i] == seq![0u8, 0u8, 0u8][i]);
        }
    }
}

/// A retagged TOS byte carries the lower six bits of the new DSCP value, which
/// are the value itself up to 63, and the old ECN bits.
pub proof fn law_retagging_keeps_ecn(tos: u8, dscp: u8)
    ensures
        0 <= retagged_tos(tos, dscp) <= 0xff,
        retagged_tos(tos, dscp) / 4 == dscp % 64,
        dscp <= 63 ==> retagged_tos(tos, dscp) / 4 == dscp,
        retagged_tos(tos, dscp) % 4 == tos % 4,
{
}

proof fn lemma_word_sum_update(words: Seq<u16>, i: int, new: u16)
    requires
        0 <= i < words.len(),
    ensures
        word_sum(words.update(i, new)) == word_sum(words) - words[i] + new,
    decreases words.len(),
{
    let changed = words.update(i, new);
    if i == words.len() - 1 {
        assert(changed.drop_last() =~= words.drop_last());
    } else {
        lemma_word_sum_update(words.drop_last(), i, new);
        assert(changed.drop_last() =~= words.drop_last().update(i, new));
    }
}

proof fn lemma_word_sum_bounds(words: Seq<u16>)
    ensures
        0 <= word_sum(words),
        forall|i: int| 0 <= i < words.len() ==> #[trigger] words[i] <= word_sum(words),
    decreases words.len(),
{
    if words.len() > 0 {
        lemma_word_sum_bounds(words.drop_last());
        assert forall|i: int| 0 <= i < words.len() implies #[trigger] words[i] <= word_sum(
            words,
        ) by {
            if i < words.len() - 1 {
                assert(words[i] == words.drop_last()[i]);
            }
        }
    }
}

pub proof fn lemma_word_sum_positive(words: Seq<u16>, i: int)
    requires
        0 <= i < words.len(),
        words[i] > 0,
    ensures
        word_sum(words) > 0,
{
    lemma_word_sum_bounds(words);
}

/// The incremental checksum is the one that a full recomputation gives, for
/// every header whose words are not all zero after the change.
pub proof fn law_incremental_checksum_is_full_recompute(
    words: Seq<u16>,
    i: int,
    new: u16,
    check: u16,
)
    requires
        0 <= i < words.len(),
        check == internet_checksum(words),
        word_sum(words.update(i, new)) > 0,
    ensures
        checksum_after(check, words[i], new) == internet_checksum(words.update(i, new)),
{
    let sum = word_sum(words);
    let after = word_sum(words.update(i, new));
    lemma_word_sum_update(words, i, new);
    lemma_word_sum_bounds(words);
    let folded = fold16(sum);
    let fed = folded + (0xffff - words[i]) + new;
    if sum > 0 {
        let q: int = (sum - 1) / 0xffff;
        assert(sum == folded + 0xffff * q);
        assert(after == fed + 0xffff * (q - 1));
    } else {
        assert(after == fed - 0xffff);
    }
    assert(fed > 0);
    lemma_fold_congruent(after, fed);
}

proof fn lemma_fold_congruent(a: int, b: int)
    requires
        a > 0,
        b > 0,
        (a - b) % 0xffff == 0,
    ensures
        fold16(a) == fold16(b),
{
}

/// The checksum after a change counts the header's words as before: modulo
/// 65535 it differs from the one before by what the word has lost. Of the two
/// representations of zero it is the lower one, unless no word is left that is
/// not zero.
pub proof fn law_checksum_follows_the_word(check: u16, old: u16, new: u16)
    ensures
        0 <= checksum_after(check, old, new) <= 65535,
        (checksum_after(check, old, new) + new - check - old) % 65535 == 0,
        checksum_after(check, old, new) == 65535 <==> check == 65535 && old == 65535 && new == 0,
{
}

/// The words of a header and its checksum add up to a multiple of 65535, and
/// words are summed one by one.
pub proof fn law_words_and_checksum_add_up(words: Seq<u16>, word: u16)
    ensures
        word_sum(Seq::<u16>::empty()) == 0,
        word_sum(words.push(word)) == word_sum(words) + word,
        0 <= internet_checksum(words) <= 65535,
        (word_sum(words) + internet_checksum(words)) % 65535 == 0,
        internet_checksum(words) == 65535 <==> word_sum(words) == 0,
{
    assert(words.push(word).drop_last() =~= words);
    lemma_word_sum_bounds(words);
}

/// The opposite direction of a flow has its ends swapped.
pub proof fn law_opposite_swaps_the_ends(key: FlowKey)
    ensures
        key.opposite().src == key.dst,
        key.opposite().dst == key.src,
        key.opposite().sport == key.dport,
        key.opposite().dport == key.sport,
        key.opposite().proto == key.proto,
        key.opposite().padded(),
{
    assert(key.opposite()._pad@ =~= seq![0u8, 0u8, 0u8]);
}

/// A flow key holds what it is made of, and three zero bytes.
pub proof fn law_flow_keys_hold_what_they_are_made_of(
    src: u32,
    dst: u32,
    sport: u16,
    dport: u16,
    proto: u8,
)
    ensures
        ({
            let key = flow_key(src, dst, sport, dport, proto);
            &&& key.src == src && key.dst == dst
            &&& key.sport == sport && key.dport == dport
            &&& key.proto == proto
            &&& key._pad@.len() == 3
            &&& forall|i: int| 0 <= i < 3 ==> #[trigger] key._pad@[i] == 0
        }),
{
}

} // verus!
