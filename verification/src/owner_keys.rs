//! The membership record of the owner: the keys that it approves, all anchored
//! at one instant.

use vstd::prelude::*;
use vstd::slice::*;
use vstd::string::*;
use vstd::utf8::*;

use crate::acp_real_path::M7_MEMBERSHIP_LIFETIME_SECONDS;
use crate::ordered::{text_before, Ordered};
use crate::stable::{
    is_sorted_list, labels_in_order, lemma_sorted_list_is_unique, pairs, sort_by_label, Labelled,
};
use crate::std_text::decode_lossy;
use crate::text::views;

verus! {

/// A key that a membership record approves, and when it does.
#[derive(Clone, Debug, Eq, PartialEq)]
pub struct PeerKey {
    pub key_id: String,
    pub spki_sha256: String,
    pub not_before_ms: i64,
    pub expires_at_ms: i64,
    pub revoked: bool,
}

/// The model of a key.
pub struct KeyView {
    pub key_id: Seq<char>,
    pub spki_sha256: Seq<char>,
    pub not_before_ms: i64,
    pub expires_at_ms: i64,
    pub revoked: bool,
}

impl View for PeerKey {
    type V = KeyView;

    open spec fn view(&self) -> KeyView {
        KeyView {
            key_id: self.key_id@,
            spki_sha256: self.spki_sha256@,
            not_before_ms: self.not_before_ms,
            expires_at_ms: self.expires_at_ms,
            revoked: self.revoked,
        }
    }
}

impl Labelled for PeerKey {
    type Rest = KeyView;

    open spec fn pair(&self) -> (Seq<char>, KeyView) {
        (self.key_id@, self@)
    }

    fn label(&self) -> (label: &str) {
        self.key_id.as_str()
    }
}

/// The owner's membership record, as far as the harness chooses it.
#[derive(Clone, Debug, Eq, PartialEq)]
pub struct OwnerRecord {
    pub record_version: u64,
    pub issued_at_ms: i64,
    pub expires_at_ms: i64,
    pub keys: Vec<PeerKey>,
}

/// The model of the owner's membership record.
pub struct RecordView {
    pub record_version: u64,
    pub issued_at_ms: i64,
    pub expires_at_ms: i64,
    pub keys: Seq<KeyView>,
}

/// The models of a list of keys.
pub open spec fn key_views(keys: Seq<PeerKey>) -> Seq<KeyView> {
    keys.map_values(|key: PeerKey| key@)
}

impl View for OwnerRecord {
    type V = RecordView;

    open spec fn view(&self) -> RecordView {
        RecordView {
            record_version: self.record_version,
            issued_at_ms: self.issued_at_ms,
            expires_at_ms: self.expires_at_ms,
            keys: key_views(self.keys@),
        }
    }
}

/// The digest's first sixteen bytes are characters.
pub open spec fn has_head(spki: Seq<char>) -> bool {
    encode_utf8(spki).len() >= 16 && valid_utf8(encode_utf8(spki).take(16))
}

/// The key id of a peer key: the node and the first sixteen bytes of the
/// key's digest, so that it does not move with the record's version.
pub open spec fn key_id(node: Seq<char>, spki: Seq<char>) -> Seq<char> {
    node + "-peer-"@ + decode_utf8(encode_utf8(spki).take(16))
}

/// The end of what is anchored at `now_ms`: a membership lifetime later.
pub open spec fn end_of(now_ms: i64) -> int {
    now_ms + M7_MEMBERSHIP_LIFETIME_SECONDS * 1000
}

/// The key with this digest, anchored at `now_ms`.
pub open spec fn anchored(node: Seq<char>, spki: Seq<char>, now_ms: i64) -> KeyView {
    KeyView {
        key_id: key_id(node, spki),
        spki_sha256: spki,
        not_before_ms: now_ms,
        expires_at_ms: end_of(now_ms) as i64,
        revoked: false,
    }
}

/// The keys with these digests under their ids, in the caller's order.
pub open spec fn approved(node: Seq<char>, spkis: Seq<Seq<char>>, now_ms: i64) -> Seq<
    (Seq<char>, KeyView),
> {
    spkis.map_values(|spki: Seq<char>| (key_id(node, spki), anchored(node, spki, now_ms)))
}

/// The keys of a record under their ids.
pub open spec fn by_id(keys: Seq<KeyView>) -> Seq<(Seq<char>, KeyView)> {
    keys.map_values(|key: KeyView| (key.key_id, key))
}

/// The record of this version that approves these digests from `now_ms` on, its
/// keys in the order of their ids.
pub open spec fn is_record(
    record: RecordView,
    node: Seq<char>,
    version: u64,
    spkis: Seq<Seq<char>>,
    now_ms: i64,
) -> bool {
    &&& record.record_version == version
    &&& record.issued_at_ms == now_ms
    &&& record.expires_at_ms == end_of(now_ms)
    &&& is_sorted_list(by_id(record.keys), approved(node, spkis, now_ms))
}

/// The owner's record of this version, approving these digests, with everything
/// in it anchored at `now_ms`.  Its keys stand in the order that a membership
/// record asks of keys activating at one instant.
pub fn owner_record(node: &str, version: u64, spkis: &Vec<String>, now_ms: i64) -> (record:
    OwnerRecord)
    requires
        forall|i: int| 0 <= i < spkis@.len() ==> has_head((#[trigger] spkis@[i])@),
        end_of(now_ms) <= i64::MAX,
    ensures
        is_record(record@, node@, version, views(spkis@), now_ms),
{
    let ghost all = approved(node@, views(spkis@), now_ms);
    let expires_at_ms: i64 = now_ms + M7_MEMBERSHIP_LIFETIME_SECONDS * 1000;
    let mut keys: Vec<PeerKey> = Vec::new();
    let mut i: usize = 0;
    assert(pairs(keys@) =~= all.take(0));
    while i < spkis.len()
        invariant
            i <= spkis.len(),
            forall|k: int| 0 <= k < spkis@.len() ==> has_head((#[trigger] spkis@[k])@),
            expires_at_ms == end_of(now_ms),
            all == approved(node@, views(spkis@), now_ms),
            pairs(keys@) == all.take(i as int),
        decreases spkis.len() - i,
    {
        let ghost before = keys@;
        let bytes = spkis[i].as_str().as_bytes();
        assert(has_head(spkis@[i as int]@));
        let head = slice_subrange(bytes, 0, 16);
        assert(head@ =~= bytes@.take(16));
        let digits = decode_lossy(head);
        let key = PeerKey {
            key_id: node.to_owned().concat("-peer-").concat(digits.as_str()),
            spki_sha256: spkis[i].as_str().to_owned(),
            not_before_ms: now_ms,
            expires_at_ms,
            revoked: false,
        };
        let ghost pair = key.pair();
        keys.push(key);
        proof {
            assert(pair == all[i as int]);
            assert(pairs(keys@) =~= pairs(before).push(pair));
            assert(all.take(i + 1) =~= all.take(i as int).push(all[i as int]));
        }
        i += 1;
    }
    assert(all.take(i as int) =~= all);
    let keys = sort_by_label(keys);
    assert(by_id(key_views(keys@)) =~= pairs(keys@));
    OwnerRecord { record_version: version, issued_at_ms: now_ms, expires_at_ms, keys }
}

/// Two records of the same digests, anchored at one instant, differ in their
/// version alone: same keys in the same order, same windows, same lifetime.
pub proof fn lemma_records_differ_in_version_alone(
    node: Seq<char>,
    spkis: Seq<Seq<char>>,
    now_ms: i64,
    first: RecordView,
    first_version: u64,
    second: RecordView,
    second_version: u64,
)
    requires
        is_record(first, node, first_version, spkis, now_ms),
        is_record(second, node, second_version, spkis, now_ms),
    ensures
        second == (RecordView { record_version: second_version, ..first }),
{
    lemma_sorted_list_is_unique(
        by_id(first.keys),
        by_id(second.keys),
        approved(node, spkis, now_ms),
    );
    lemma_same_keys(first.keys, second.keys);
}

proof fn lemma_same_keys(a: Seq<KeyView>, b: Seq<KeyView>)
    requires
        by_id(a) == by_id(b),
    ensures
        a == b,
{
    assert(by_id(a).len() == a.len() && by_id(b).len() == b.len());
    assert forall|i: int| 0 <= i < a.len() implies a[i] == b[i] by {
        assert(by_id(a)[i].1 == a[i] && by_id(b)[i].1 == b[i]);
    }
    assert(a =~= b);
}

/// Every key of a record is one of the approved digests, valid from the
/// record's own instant to its end, and not revoked.
pub proof fn lemma_keys_share_one_window(
    node: Seq<char>,
    version: u64,
    spkis: Seq<Seq<char>>,
    now_ms: i64,
    record: RecordView,
    i: int,
)
    requires
        is_record(record, node, version, spkis, now_ms),
        end_of(now_ms) <= i64::MAX,
        0 <= i < record.keys.len(),
    ensures
        spkis.contains(record.keys[i].spki_sha256),
        record.keys[i] == anchored(node, record.keys[i].spki_sha256, now_ms),
        record.keys[i].not_before_ms == record.issued_at_ms,
        record.keys[i].expires_at_ms == record.expires_at_ms,
        !record.keys[i].revoked,
{
    broadcast use vstd::seq_lib::group_to_multiset_ensures;

    let list = by_id(record.keys);
    let all = approved(node, spkis, now_ms);
    assert(list.contains(list[i]));
    assert(all.to_multiset().count(list[i]) > 0);
    let k = choose|k: int| 0 <= k < all.len() && all[k] == list[i];
    assert(list[i].1 == record.keys[i]);
    assert(spkis[k] == record.keys[i].spki_sha256);
}

/// Keys in the order of their ids are determined by what they are, where no
/// two of them share an id.
proof fn lemma_lists_agree(a: Seq<(Seq<char>, KeyView)>, b: Seq<(Seq<char>, KeyView)>)
    requires
        labels_in_order(a),
        labels_in_order(b),
        a.to_multiset() == b.to_multiset(),
        forall|x: (Seq<char>, KeyView), y: (Seq<char>, KeyView)|
            #[trigger] a.contains(x) && #[trigger] a.contains(y) && x.0 == y.0 ==> x == y,
    ensures
        a == b,
    decreases a.len(),
{
    broadcast use vstd::seq_lib::group_to_multiset_ensures;

    vstd::seq_lib::to_multiset_len(a);
    vstd::seq_lib::to_multiset_len(b);
    if a.len() == 0 {
        assert(a =~= b);
    } else {
        let x = a.last();
        let y = b.last();
        assert(a.contains(x) && b.contains(y));
        assert(b.to_multiset().count(x) > 0 && a.to_multiset().count(y) > 0);
        let i = choose|i: int| 0 <= i < b.len() && b[i] == x;
        let j = choose|j: int| 0 <= j < a.len() && a[j] == y;
        assert(i < b.len() - 1 ==> !text_before(b[b.len() - 1].0, b[i].0));
        assert(j < a.len() - 1 ==> !text_before(a[a.len() - 1].0, a[j].0));
        String::lemma_total(x.0, y.0);
        assert(x == y);
        let front = a.drop_last();
        assert(a =~= front.push(x));
        assert(b =~= b.drop_last().push(x));
        assert(front.to_multiset() =~= b.drop_last().to_multiset()) by {
            assert(front.push(x).to_multiset() == front.to_multiset().insert(x));
            assert(b.drop_last().push(x).to_multiset() == b.drop_last().to_multiset().insert(x));
            assert(front.to_multiset() =~= front.to_multiset().insert(x).remove(x));
            assert(b.drop_last().to_multiset() =~= b.drop_last().to_multiset().insert(x).remove(x));
        }
        assert forall|p: (Seq<char>, KeyView), q: (Seq<char>, KeyView)| #[trigger]
            front.contains(p) && #[trigger] front.contains(q) && p.0 == q.0 implies p == q by {
            let m = choose|m: int| 0 <= m < front.len() && front[m] == p;
            let n = choose|n: int| 0 <= n < front.len() && front[n] == q;
            assert(a[m] == p && a[n] == q);
            assert(a.contains(p) && a.contains(q));
        }
        lemma_lists_agree(front, b.drop_last());
    }
}

/// The same digests in another order give the same keys in another order.
proof fn lemma_approved_permutes(
    node: Seq<char>,
    a: Seq<Seq<char>>,
    b: Seq<Seq<char>>,
    now_ms: i64,
)
    requires
        a.to_multiset() == b.to_multiset(),
    ensures
        approved(node, a, now_ms).to_multiset() == approved(node, b, now_ms).to_multiset(),
    decreases a.len(),
{
    broadcast use vstd::seq_lib::group_to_multiset_ensures;

    vstd::seq_lib::to_multiset_len(a);
    vstd::seq_lib::to_multiset_len(b);
    if a.len() == 0 {
        assert(approved(node, a, now_ms) =~= approved(node, b, now_ms));
    } else {
        let x = a.last();
        assert(a.contains(x));
        assert(b.to_multiset().count(x) > 0);
        let j = choose|j: int| 0 <= j < b.len() && b[j] == x;
        let front = a.drop_last();
        let rest = b.remove(j);
        assert(a =~= front.push(x));
        assert(front.to_multiset() =~= a.to_multiset().remove(x));
        assert(rest.to_multiset() =~= b.to_multiset().remove(x));
        lemma_approved_permutes(node, front, rest, now_ms);
        let key = (key_id(node, x), anchored(node, x, now_ms));
        assert(approved(node, a, now_ms) =~= approved(node, front, now_ms).push(key));
        assert(approved(node, b, now_ms) =~= approved(node, rest, now_ms).insert(j, key));
        vstd::seq_lib::to_multiset_insert(approved(node, rest, now_ms), j, key);
        vstd::seq_lib::to_multiset_build(approved(node, front, now_ms), key);
    }
}

/// A record does not depend on the order in which its digests are given, where
/// no two different ones begin alike.
pub proof fn lemma_record_ignores_order(
    node: Seq<char>,
    version: u64,
    a: Seq<Seq<char>>,
    b: Seq<Seq<char>>,
    now_ms: i64,
    of_a: RecordView,
    of_b: RecordView,
)
    requires
        a.to_multiset() == b.to_multiset(),
        forall|s: Seq<char>, t: Seq<char>|
            #[trigger] a.contains(s) && #[trigger] a.contains(t) && key_id(node, s) == key_id(
                node,
                t,
            ) ==> s == t,
        is_record(of_a, node, version, a, now_ms),
        is_record(of_b, node, version, b, now_ms),
    ensures
        of_a == of_b,
{
    broadcast use vstd::seq_lib::group_to_multiset_ensures;

    lemma_approved_permutes(node, a, b, now_ms);
    let first = by_id(of_a.keys);
    let second = by_id(of_b.keys);
    assert forall|x: (Seq<char>, KeyView), y: (Seq<char>, KeyView)| #[trigger]
        first.contains(x) && #[trigger] first.contains(y) && x.0 == y.0 implies x == y by {
        let keys = approved(node, a, now_ms);
        assert(keys.to_multiset().count(x) > 0 && keys.to_multiset().count(y) > 0);
        let i = choose|i: int| 0 <= i < keys.len() && keys[i] == x;
        let j = choose|j: int| 0 <= j < keys.len() && keys[j] == y;
        assert(a.contains(a[i]) && a.contains(a[j]));
    }
    lemma_lists_agree(first, second);
    lemma_same_keys(of_a.keys, of_b.keys);
}

/// A record approves every digest it was made of, and as many keys as there
/// were digests: each under the node's name and the beginning of the digest, from
/// the record's own instant for one membership lifetime.
pub proof fn lemma_every_digest_is_approved(
    node: Seq<char>,
    version: u64,
    spkis: Seq<Seq<char>>,
    now_ms: i64,
    record: RecordView,
    k: int,
)
    requires
        is_record(record, node, version, spkis, now_ms),
        now_ms + 60000 <= i64::MAX,
        0 <= k < spkis.len(),
    ensures
        record.record_version == version,
        record.issued_at_ms == now_ms,
        record.expires_at_ms == now_ms + 60000,
        record.keys.len() == spkis.len(),
        exists|i: int|
            {
                &&& 0 <= i < record.keys.len()
                &&& (#[trigger] record.keys[i]).spki_sha256 == spkis[k]
                &&& record.keys[i].key_id == node + "-peer-"@ + decode_utf8(
                    encode_utf8(spkis[k]).take(16),
                )
                &&& record.keys[i].not_before_ms == now_ms
                &&& record.keys[i].expires_at_ms == now_ms + 60000
                &&& !record.keys[i].revoked
            },
{
    broadcast use vstd::seq_lib::group_to_multiset_ensures;

    let list = by_id(record.keys);
    let all = approved(node, spkis, now_ms);
    vstd::seq_lib::to_multiset_len(list);
    vstd::seq_lib::to_multiset_len(all);
    assert(all.contains(all[k]));
    assert(list.to_multiset().count(all[k]) > 0);
    let i = choose|i: int| 0 <= i < list.len() && list[i] == all[k];
    assert(list[i].1 == record.keys[i]);
    assert(record.keys[i].spki_sha256 == spkis[k]);
}

/// The id of an ASCII digest's key is the node's name and the first sixteen
/// characters of the digest, so keys of different beginnings have different ids.
pub proof fn lemma_key_id_of_ascii(node: Seq<char>, spki: Seq<char>, other: Seq<char>)
    requires
        is_ascii_chars(spki),
        is_ascii_chars(other),
        spki.len() >= 16,
        other.len() >= 16,
    ensures
        has_head(spki),
        key_id(node, spki) == node + "-peer-"@ + spki.take(16),
        key_id(node, spki) == key_id(node, other) <==> spki.take(16) == other.take(16),
{
    lemma_ascii_head(spki);
    lemma_ascii_head(other);
    let mine = key_id(node, spki);
    let theirs = key_id(node, other);
    let at = (node + "-peer-"@).len() as int;
    assert(mine.skip(at) =~= spki.take(16));
    assert(theirs.skip(at) =~= other.take(16));
}

proof fn lemma_ascii_head(spki: Seq<char>)
    requires
        is_ascii_chars(spki),
        spki.len() >= 16,
    ensures
        has_head(spki),
        decode_utf8(encode_utf8(spki).take(16)) == spki.take(16),
{
    let head = spki.take(16);
    is_ascii_chars_encode_utf8(spki);
    assert(is_ascii_chars(head));
    is_ascii_chars_encode_utf8(head);
    assert(encode_utf8(head) =~= encode_utf8(spki).take(16)) by {
        assert forall|i: int| 0 <= i < 16 implies encode_utf8(head)[i] == encode_utf8(spki).take(
            16,
        )[i] by {
            assert(head[i] == spki[i]);
            assert(head[i] as u8 == encode_utf8(head)[i]);
            assert(spki[i] as u8 == encode_utf8(spki)[i]);
        }
    }
    encode_utf8_valid_utf8(head);
    encode_utf8_decode_utf8(head);
}

} // verus!
