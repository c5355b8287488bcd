//! Diagnostic keys: which bytes show that a window carries a safe field.

use vstd::prelude::*;
use vstd::string::*;
use vstd::utf8::*;

use crate::ordered::Ordered;
use crate::peer_fault_table::{alphanumeric, is_alphanumeric};
use crate::scan_failure::SafeField;
use crate::text::occurs_at;

verus! {

/// The keys that show a relay.
pub const RELAY_KEYS: [&'static str; 2] = ["relay", "relays"];

/// The keys that show a tenant.
pub const TENANT_KEYS: [&'static str; 3] = ["tenant", "tenants", "tenant_id"];

/// The keys that show an owner.
pub const OWNER_KEYS: [&'static str; 6] = [
    "owner",
    "owners",
    "owner_id",
    "owner_relay",
    "target_owner",
    "sibling_owner",
];

/// The keys that show a route.
pub const ROUTE_KEYS: [&'static str; 5] = [
    "route",
    "peer_ready",
    "ingress",
    "ingress_node",
    "ingress_relays",
];

/// The keys that show a phase.
pub const PHASE_KEYS: [&'static str; 2] = ["phase", "stage"];

/// The keys that show an epoch, a generation or a fence.
pub const FENCE_KEYS: [&'static str; 5] = [
    "epoch",
    "generation",
    "active_generation",
    "candidate_generation",
    "fence",
];

/// The keys that show a revocation or an owner death.
pub const DEATH_KEYS: [&'static str; 5] = [
    "revocation",
    "owner_death",
    "owner-death",
    "owner_loss",
    "key_revocation",
];

/// The keys that show a counter.
pub const COUNTER_KEYS: [&'static str; 10] = [
    "counter",
    "dispatch",
    "dispatches",
    "dispatch_counter",
    "queue_messages",
    "queue_bytes",
    "lifetime_application_dispatches",
    "active_connections",
    "streams",
    "sockets",
];

/// The keys that show a close cause.
pub const CLOSE_KEYS: [&'static str; 11] = [
    "reason",
    "close",
    "close_cause",
    "cause",
    "terminal",
    "terminal_reason",
    "terminal_event",
    "terminal_events",
    "session_terminal_events",
    "rotation_recovery_reason",
    "post_terminal",
];

/// A byte of an identifier: an ASCII letter, a digit or an underscore.
pub open spec fn is_identifier_byte(byte: u8) -> bool {
    is_alphanumeric(byte) || byte == 0x5f
}

/// `byte` with an ASCII capital made small.
pub open spec fn lowered(byte: u8) -> int {
    if 0x41 <= byte <= 0x5a {
        byte + 0x20
    } else {
        byte as int
    }
}

/// `needle` stands in `haystack` at `at` as a whole identifier, whatever the
/// case of its letters.
pub open spec fn key_at(haystack: Seq<u8>, needle: Seq<u8>, at: int) -> bool {
    &&& 0 <= at
    &&& at + needle.len() <= haystack.len()
    &&& forall|i: int|
        0 <= i < needle.len() ==> lowered(haystack[at + i]) == lowered(#[trigger] needle[i])
    &&& is_boundary(haystack, at, needle.len() as int)
}

/// No identifier byte stands right before `at` or `length` bytes later.
pub open spec fn is_boundary(haystack: Seq<u8>, at: int, length: int) -> bool {
    &&& at == 0 || !is_identifier_byte(haystack[at - 1])
    &&& at + length >= haystack.len() || !is_identifier_byte(haystack[at + length])
}

/// `needle` is not empty and stands somewhere in `haystack` as a whole
/// identifier, whatever the case of its letters.
pub open spec fn has_key(haystack: Seq<u8>, needle: Seq<u8>) -> bool {
    needle.len() > 0 && exists|at: int| key_at(haystack, needle, at)
}

fn identifier_byte(byte: u8) -> (answer: bool)
    ensures
        answer == is_identifier_byte(byte),
{
    alphanumeric(byte) || byte == 0x5f
}

fn lower(byte: u8) -> (small: u8)
    ensures
        small == lowered(byte),
{
    if 0x41 <= byte && byte <= 0x5a {
        byte + 0x20
    } else {
        byte
    }
}

fn is_identifier_boundary(haystack: &[u8], offset: usize, length: usize) -> (answer: bool)
    requires
        offset + length <= haystack.len(),
    ensures
        answer == is_boundary(haystack@, offset as int, length as int),
{
    let before = offset == 0 || !identifier_byte(haystack[offset - 1]);
    let after = offset + length == haystack.len() || !identifier_byte(haystack[offset + length]);
    before && after
}

fn key_stands_at(haystack: &[u8], needle: &[u8], at: usize) -> (found: bool)
    requires
        at + needle.len() <= haystack.len(),
    ensures
        found == key_at(haystack@, needle@, at as int),
{
    stands_at(haystack, needle, at) && is_identifier_boundary(haystack, at, needle.len())
}

/// Matches a complete diagnostic key instead of an arbitrary substring.
///
/// Snapshot and harness records use ASCII identifiers separated by punctuation
/// (`queue_messages=`, `owner-death`, JSON quotes, and similar forms).  ASCII
/// letters, digits and underscores are identifier bytes, so a value such as
/// `counterfeit` cannot satisfy the `counter` category while compound keys
/// remain matched by their full needle.
pub fn contains_ascii_case_insensitive_key(haystack: &[u8], needle: &[u8]) -> (found: bool)
    ensures
        found == has_key(haystack@, needle@),
{
    if needle.len() == 0 || needle.len() > haystack.len() {
        return false;
    }
    let last: usize = haystack.len() - needle.len();
    let mut at: usize = 0;
    while at <= last
        invariant
            0 < needle.len() <= haystack.len(),
            last == haystack.len() - needle.len(),
            at <= last + 1,
            forall|k: int| 0 <= k < at ==> !key_at(haystack@, needle@, k),
        decreases last + 1 - at,
    {
        if key_stands_at(haystack, needle, at) {
            return true;
        }
        at += 1;
    }
    false
}

/// A haystack holds a key whatever the case in which either is written.
pub proof fn lemma_key_ignores_case(a: Seq<u8>, b: Seq<u8>, needle: Seq<u8>)
    requires
        a.len() == b.len(),
        forall|i: int| 0 <= i < a.len() ==> lowered(#[trigger] a[i]) == lowered(b[i]),
    ensures
        has_key(a, needle) == has_key(b, needle),
{
    assert forall|at: int| key_at(a, needle, at) == key_at(b, needle, at) by {
        lemma_key_at_ignores_case(a, b, needle, at);
    }
    if has_key(a, needle) {
        let at = choose|at: int| key_at(a, needle, at);
        assert(key_at(b, needle, at));
    }
    if has_key(b, needle) {
        let at = choose|at: int| key_at(b, needle, at);
        assert(key_at(a, needle, at));
    }
}

proof fn lemma_key_at_ignores_case(a: Seq<u8>, b: Seq<u8>, needle: Seq<u8>, at: int)
    requires
        a.len() == b.len(),
        forall|i: int| 0 <= i < a.len() ==> lowered(#[trigger] a[i]) == lowered(b[i]),
    ensures
        key_at(a, needle, at) == key_at(b, needle, at),
{
    if 0 <= at && at + needle.len() <= a.len() {
        if at > 0 {
            assert(lowered(a[at - 1]) == lowered(b[at - 1]));
        }
        if at + needle.len() < a.len() {
            assert(lowered(a[at + needle.len()]) == lowered(b[at + needle.len()]));
        }
        assert forall|i: int| 0 <= i < needle.len() implies (lowered(a[at + i]) == lowered(
            #[trigger] needle[i],
        )) == (lowered(b[at + i]) == lowered(needle[i])) by {
            let k = at + i;
            assert(lowered(a[k]) == lowered(b[k]));
        }
    }
}

/// A key never matches inside a longer identifier: a byte of an identifier
/// right before or right after the match excludes it.
pub proof fn lemma_key_is_not_a_substring(haystack: Seq<u8>, needle: Seq<u8>, at: int)
    requires
        0 <= at,
        at + needle.len() <= haystack.len(),
        (at > 0 && is_identifier_byte(haystack[at - 1])) || (at + needle.len() < haystack.len()
            && is_identifier_byte(haystack[at + needle.len()])),
    ensures
        !key_at(haystack, needle, at),
{
}

/// A key that holds no space stands in two texts joined by a space exactly when
/// it stands in one of them.
proof fn lemma_key_in_joined(a: Seq<u8>, b: Seq<u8>, needle: Seq<u8>)
    requires
        forall|i: int| 0 <= i < needle.len() ==> #[trigger] needle[i] != 0x20,
    ensures
        has_key(a + seq![0x20u8] + b, needle) == (has_key(a, needle) || has_key(b, needle)),
{
    let whole = a + seq![0x20u8] + b;
    let n = needle.len() as int;
    let cut = a.len() as int;
    assert(whole[cut] == 0x20);
    assert forall|i: int| 0 <= i < cut implies whole[i] == a[i] by {}
    assert forall|i: int| 0 <= i < b.len() implies whole[cut + 1 + i] == b[i] by {}
    if has_key(a, needle) {
        let at = choose|at: int| key_at(a, needle, at);
        assert forall|i: int| 0 <= i < n implies lowered(whole[at + i]) == lowered(
            #[trigger] needle[i],
        ) by {
            assert(whole[at + i] == a[at + i]);
        }
        assert(at > 0 ==> whole[at - 1] == a[at - 1]);
        assert(key_at(whole, needle, at));
    }
    if has_key(b, needle) {
        let at = choose|at: int| key_at(b, needle, at);
        let moved = cut + 1 + at;
        assert forall|i: int| 0 <= i < n implies lowered(whole[moved + i]) == lowered(
            #[trigger] needle[i],
        ) by {
            assert(whole[cut + 1 + (at + i)] == b[at + i]);
        }
        assert(at > 0 ==> whole[cut + 1 + (at - 1)] == b[at - 1]);
        assert(at + n < b.len() ==> whole[cut + 1 + (at + n)] == b[at + n]);
        assert(key_at(whole, needle, moved));
    }
    if has_key(whole, needle) {
        let at = choose|at: int| key_at(whole, needle, at);
        if at <= cut < at + n {
            assert(lowered(whole[at + (cut - at)]) == lowered(needle[cut - at]));
            assert(needle[cut - at] == 0x20);
        }
        if at + n <= cut {
            assert forall|i: int| 0 <= i < n implies lowered(a[at + i]) == lowered(
                #[trigger] needle[i],
            ) by {
                assert(whole[at + i] == a[at + i]);
            }
            assert(at > 0 ==> whole[at - 1] == a[at - 1]);
            assert(at + n < cut ==> whole[at + n] == a[at + n]);
            assert(key_at(a, needle, at));
        } else {
            let moved = at - cut - 1;
            assert forall|i: int| 0 <= i < n implies lowered(b[moved + i]) == lowered(
                #[trigger] needle[i],
            ) by {
                assert(whole[cut + 1 + (moved + i)] == b[moved + i]);
                assert(lowered(whole[at + i]) == lowered(needle[i]));
            }
            assert(moved > 0 ==> whole[cut + 1 + (moved - 1)] == b[moved - 1]);
            assert(moved + n < b.len() ==> whole[cut + 1 + (moved + n)] == b[moved + n]);
            assert(key_at(b, needle, moved));
        }
    }
}

/// An ASCII text without a space, and not an empty one.
pub open spec fn is_word(text: Seq<char>) -> bool {
    text.len() > 0 && is_ascii_chars(text) && forall|i: int| 0 <= i < text.len() ==> #[trigger] text[i] != ' '
}

/// Every text of a list is a word.
pub open spec fn all_words(texts: Seq<&'static str>) -> bool {
    forall|i: int| 0 <= i < texts.len() ==> is_word((#[trigger] texts[i])@)
}

proof fn lemma_relay_keys_are_words()
    ensures
        all_words(RELAY_KEYS@),
{
    assert(is_word("relay"@)) by {
        reveal_strlit("relay");
    }
    assert(is_word("relays"@)) by {
        reveal_strlit("relays");
    }
}

proof fn lemma_tenant_keys_are_words()
    ensures
        all_words(TENANT_KEYS@),
{
    assert(is_word("tenant"@)) by {
        reveal_strlit("tenant");
    }
    assert(is_word("tenants"@)) by {
        reveal_strlit("tenants");
    }
    assert(is_word("tenant_id"@)) by {
        reveal_strlit("tenant_id");
    }
}

proof fn lemma_owner_keys_are_words()
    ensures
        all_words(OWNER_KEYS@),
{
    assert(is_word("owner"@)) by {
        reveal_strlit("owner");
    }
    assert(is_word("owners"@)) by {
        reveal_strlit("owners");
    }
    assert(is_word("owner_id"@)) by {
        reveal_strlit("owner_id");
    }
    assert(is_word("owner_relay"@)) by {
        reveal_strlit("owner_relay");
    }
    assert(is_word("target_owner"@)) by {
        reveal_strlit("target_owner");
    }
    assert(is_word("sibling_owner"@)) by {
        reveal_strlit("sibling_owner");
    }
}

proof fn lemma_route_keys_are_words()
    ensures
        all_words(ROUTE_KEYS@),
{
    assert(is_word("route"@)) by {
        reveal_strlit("route");
    }
    assert(is_word("peer_ready"@)) by {
        reveal_strlit("peer_ready");
    }
    assert(is_word("ingress"@)) by {
        reveal_strlit("ingress");
    }
    assert(is_word("ingress_node"@)) by {
        reveal_strlit("ingress_node");
    }
    assert(is_word("ingress_relays"@)) by {
        reveal_strlit("ingress_relays");
    }
}

proof fn lemma_phase_keys_are_words()
    ensures
        all_words(PHASE_KEYS@),
{
    assert(is_word("phase"@)) by {
        reveal_strlit("phase");
    }
    assert(is_word("stage"@)) by {
        reveal_strlit("stage");
    }
}

proof fn lemma_fence_keys_are_words()
    ensures
        all_words(FENCE_KEYS@),
{
    assert(is_word("epoch"@)) by {
        reveal_strlit("epoch");
    }
    assert(is_word("generation"@)) by {
        reveal_strlit("generation");
    }
    assert(is_word("active_generation"@)) by {
        reveal_strlit("active_generation");
    }
    assert(is_word("candidate_generation"@)) by {
        reveal_strlit("candidate_generation");
    }
    assert(is_word("fence"@)) by {
        reveal_strlit("fence");
    }
}

proof fn lemma_death_keys_are_words()
    ensures
        all_words(DEATH_KEYS@),
{
    assert(is_word("revocation"@)) by {
        reveal_strlit("revocation");
    }
    assert(is_word("owner_death"@)) by {
        reveal_strlit("owner_death");
    }
    assert(is_word("owner-death"@)) by {
        reveal_strlit("owner-death");
    }
    assert(is_word("owner_loss"@)) by {
        reveal_strlit("owner_loss");
    }
    assert(is_word("key_revocation"@)) by {
        reveal_strlit("key_revocation");
    }
}

proof fn lemma_counter_keys_are_words()
    ensures
        all_words(COUNTER_KEYS@),
{
    assert(is_word("counter"@)) by {
        reveal_strlit("counter");
    }
    assert(is_word("dispatch"@)) by {
        reveal_strlit("dispatch");
    }
    assert(is_word("dispatches"@)) by {
        reveal_strlit("dispatches");
    }
    assert(is_word("dispatch_counter"@)) by {
        reveal_strlit("dispatch_counter");
    }
    assert(is_word("queue_messages"@)) by {
        reveal_strlit("queue_messages");
    }
    assert(is_word("queue_bytes"@)) by {
        reveal_strlit("queue_bytes");
    }
    assert(is_word("lifetime_application_dispatches"@)) by {
        reveal_strlit("lifetime_application_dispatches");
    }
    assert(is_word("active_connections"@)) by {
        reveal_strlit("active_connections");
    }
    assert(is_word("streams"@)) by {
        reveal_strlit("streams");
    }
    assert(is_word("sockets"@)) by {
        reveal_strlit("sockets");
    }
}

proof fn lemma_close_keys_are_words()
    ensures
        all_words(CLOSE_KEYS@),
{
    assert(is_word("reason"@)) by {
        reveal_strlit("reason");
    }
    assert(is_word("close"@)) by {
        reveal_strlit("close");
    }
    assert(is_word("close_cause"@)) by {
        reveal_strlit("close_cause");
    }
    assert(is_word("cause"@)) by {
        reveal_strlit("cause");
    }
    assert(is_word("terminal"@)) by {
        reveal_strlit("terminal");
    }
    assert(is_word("terminal_reason"@)) by {
        reveal_strlit("terminal_reason");
    }
    assert(is_word("terminal_event"@)) by {
        reveal_strlit("terminal_event");
    }
    assert(is_word("terminal_events"@)) by {
        reveal_strlit("terminal_events");
    }
    assert(is_word("session_terminal_events"@)) by {
        reveal_strlit("session_terminal_events");
    }
    assert(is_word("rotation_recovery_reason"@)) by {
        reveal_strlit("rotation_recovery_reason");
    }
    assert(is_word("post_terminal"@)) by {
        reveal_strlit("post_terminal");
    }
}

/// The field's key at `i` holds no space.
proof fn lemma_keys_hold_no_space(field: SafeField, i: int)
    requires
        0 <= i < field.keys().len(),
    ensures
        encode_utf8(field.keys()[i]@).len() > 0,
        forall|k: int|
            0 <= k < encode_utf8(field.keys()[i]@).len() ==> #[trigger] encode_utf8(
                field.keys()[i]@,
            )[k] != 0x20,
{
    let key = field.keys()[i]@;
    match field {
        SafeField::Relay => lemma_relay_keys_are_words(),
        SafeField::Tenant => lemma_tenant_keys_are_words(),
        SafeField::Owner => lemma_owner_keys_are_words(),
        SafeField::Route => lemma_route_keys_are_words(),
        SafeField::Phase => lemma_phase_keys_are_words(),
        SafeField::EpochGenerationFence => lemma_fence_keys_are_words(),
        SafeField::RevocationOwnerDeath => lemma_death_keys_are_words(),
        SafeField::Counter => lemma_counter_keys_are_words(),
        SafeField::CloseCause => lemma_close_keys_are_words(),
    }
    assert(all_words(field.keys()));
    assert(is_word(key));
    is_ascii_chars_encode_utf8(key);
    assert forall|k: int| 0 <= k < encode_utf8(key).len() implies #[trigger] encode_utf8(key)[k]
        != 0x20 by {
        assert(key[k] != ' ' && key[k] as u8 == encode_utf8(key)[k]);
    }
}

/// `byte` with a small ASCII letter made a capital.
pub open spec fn raised(byte: u8) -> u8 {
    if 0x61 <= byte <= 0x7a {
        (byte - 0x20) as u8
    } else {
        byte
    }
}

/// `text` in ASCII capitals.
pub open spec fn in_capitals(text: Seq<u8>) -> Seq<u8> {
    text.map_values(|byte: u8| raised(byte))
}

impl SafeField {
    /// A field is shown by two texts joined by a space exactly when one of them
    /// shows it, and by no empty text.
    pub proof fn lemma_shown_by_words(self, a: Seq<u8>, b: Seq<u8>)
        ensures
            self.shown_in(a + seq![0x20u8] + b) == (self.shown_in(a) || self.shown_in(b)),
            !self.shown_in(Seq::<u8>::empty()),
    {
        let keys = self.keys();
        let whole = a + seq![0x20u8] + b;
        assert forall|i: int| 0 <= i < keys.len() implies has_key(
            whole,
            encode_utf8((#[trigger] keys[i])@),
        ) == (has_key(a, encode_utf8(keys[i]@)) || has_key(b, encode_utf8(keys[i]@))) by {
            lemma_keys_hold_no_space(self, i);
            lemma_key_in_joined(a, b, encode_utf8(keys[i]@));
        }
        if self.shown_in(whole) {
            let i = choose|i: int|
                0 <= i < keys.len() && has_key(whole, encode_utf8((#[trigger] keys[i])@));
            assert(has_key(a, encode_utf8(keys[i]@)) || has_key(b, encode_utf8(keys[i]@)));
        }
        if self.shown_in(a) {
            let i = choose|i: int|
                0 <= i < keys.len() && has_key(a, encode_utf8((#[trigger] keys[i])@));
            assert(has_key(whole, encode_utf8(keys[i]@)));
        }
        if self.shown_in(b) {
            let i = choose|i: int|
                0 <= i < keys.len() && has_key(b, encode_utf8((#[trigger] keys[i])@));
            assert(has_key(whole, encode_utf8(keys[i]@)));
        }
    }

    /// A field is shown by a text whatever the case of its letters, so by a text
    /// exactly when by the same text in capitals.
    pub proof fn lemma_shown_in_any_case(self, text: Seq<u8>, other: Seq<u8>)
        ensures
            self.shown_in(in_capitals(text)) == self.shown_in(text),
            text.len() == other.len() && (forall|i: int|
                0 <= i < text.len() ==> lowered(#[trigger] text[i]) == lowered(other[i]))
                ==> self.shown_in(other) == self.shown_in(text),
    {
        let capitals = in_capitals(text);
        assert forall|i: int| 0 <= i < text.len() implies lowered(#[trigger] text[i]) == lowered(
            capitals[i],
        ) by {}
        lemma_shown_alike(self, text, capitals);
        if text.len() == other.len() && (forall|i: int|
            0 <= i < text.len() ==> lowered(#[trigger] text[i]) == lowered(other[i])) {
            lemma_shown_alike(self, text, other);
        }
    }
}

proof fn lemma_shown_alike(field: SafeField, a: Seq<u8>, b: Seq<u8>)
    requires
        a.len() == b.len(),
        forall|i: int| 0 <= i < a.len() ==> lowered(#[trigger] a[i]) == lowered(b[i]),
    ensures
        field.shown_in(a) == field.shown_in(b),
{
    let keys = field.keys();
    assert forall|i: int| 0 <= i < keys.len() implies has_key(
        a,
        encode_utf8((#[trigger] keys[i])@),
    ) == has_key(b, encode_utf8(keys[i]@)) by {
        lemma_key_ignores_case(a, b, encode_utf8(keys[i]@));
    }
    if field.shown_in(a) {
        let i = choose|i: int| 0 <= i < keys.len() && has_key(a, encode_utf8((#[trigger] keys[i])@));
        assert(has_key(b, encode_utf8(keys[i]@)));
    }
    if field.shown_in(b) {
        let i = choose|i: int| 0 <= i < keys.len() && has_key(b, encode_utf8((#[trigger] keys[i])@));
        assert(has_key(a, encode_utf8(keys[i]@)));
    }
}

impl SafeField {
    /// The keys that show the field.
    pub open spec fn keys(self) -> Seq<&'static str> {
        match self {
            SafeField::Relay => RELAY_KEYS@,
            SafeField::Tenant => TENANT_KEYS@,
            SafeField::Owner => OWNER_KEYS@,
            SafeField::Route => ROUTE_KEYS@,
            SafeField::Phase => PHASE_KEYS@,
            SafeField::EpochGenerationFence => FENCE_KEYS@,
            SafeField::RevocationOwnerDeath => DEATH_KEYS@,
            SafeField::Counter => COUNTER_KEYS@,
            SafeField::CloseCause => CLOSE_KEYS@,
        }
    }

    /// One of the field's keys stands in `bytes`.
    pub open spec fn shown_in(self, bytes: Seq<u8>) -> bool {
        exists|i: int|
            0 <= i < self.keys().len() && has_key(bytes, encode_utf8((#[trigger] self.keys()[i])@))
    }

    /// Whether one of the field's keys stands in `bytes`.
    pub fn matches(self, bytes: &[u8]) -> (found: bool)
        ensures
            found == self.shown_in(bytes@),
    {
        let keys: &[&'static str] = match self {
            SafeField::Relay => RELAY_KEYS.as_slice(),
            SafeField::Tenant => TENANT_KEYS.as_slice(),
            SafeField::Owner => OWNER_KEYS.as_slice(),
            SafeField::Route => ROUTE_KEYS.as_slice(),
            SafeField::Phase => PHASE_KEYS.as_slice(),
            SafeField::EpochGenerationFence => FENCE_KEYS.as_slice(),
            SafeField::RevocationOwnerDeath => DEATH_KEYS.as_slice(),
            SafeField::Counter => COUNTER_KEYS.as_slice(),
            SafeField::CloseCause => CLOSE_KEYS.as_slice(),
        };
        assert(keys@ == self.keys());
        let mut i: usize = 0;
        while i < keys.len()
            invariant
                i <= keys.len(),
                keys@ == self.keys(),
                forall|k: int|
                    0 <= k < i ==> !has_key(bytes@, encode_utf8((#[trigger] self.keys()[k])@)),
            decreases keys.len() - i,
        {
            if contains_ascii_case_insensitive_key(bytes, keys[i].as_bytes()) {
                assert(has_key(bytes@, encode_utf8(self.keys()[i as int]@)));
                return true;
            }
            i += 1;
        }
        false
    }

    /// The position of the field in the list of all fields.
    pub open spec fn rank(self) -> int {
        match self {
            SafeField::Relay => 0,
            SafeField::Tenant => 1,
            SafeField::Owner => 2,
            SafeField::Route => 3,
            SafeField::Phase => 4,
            SafeField::EpochGenerationFence => 5,
            SafeField::RevocationOwnerDeath => 6,
            SafeField::Counter => 7,
            SafeField::CloseCause => 8,
        }
    }
}

fn rank_of(field: SafeField) -> (rank: u8)
    ensures
        rank == field.rank(),
{
    match field {
        SafeField::Relay => 0,
        SafeField::Tenant => 1,
        SafeField::Owner => 2,
        SafeField::Route => 3,
        SafeField::Phase => 4,
        SafeField::EpochGenerationFence => 5,
        SafeField::RevocationOwnerDeath => 6,
        SafeField::Counter => 7,
        SafeField::CloseCause => 8,
    }
}

impl Ordered for SafeField {
    type Key = SafeField;

    open spec fn key(&self) -> SafeField {
        *self
    }

    open spec fn before(a: SafeField, b: SafeField) -> bool {
        a.rank() < b.rank()
    }

    proof fn lemma_irreflexive(a: SafeField) {
    }

    proof fn lemma_transitive(a: SafeField, b: SafeField, c: SafeField) {
    }

    proof fn lemma_total(a: SafeField, b: SafeField) {
    }

    fn precedes(&self, other: &Self) -> (precedes: bool) {
        rank_of(*self) < rank_of(*other)
    }
}

/// `needle` stands in `haystack` at `at`, whatever the case of its letters.
pub open spec fn insensitive_at(haystack: Seq<u8>, needle: Seq<u8>, at: int) -> bool {
    &&& 0 <= at
    &&& at + needle.len() <= haystack.len()
    &&& forall|i: int|
        0 <= i < needle.len() ==> lowered(haystack[at + i]) == lowered(#[trigger] needle[i])
}

/// `needle` is not empty and stands in `haystack`, whatever the case of its
/// letters.
pub open spec fn holds_insensitive(haystack: Seq<u8>, needle: Seq<u8>) -> bool {
    needle.len() > 0 && exists|at: int| insensitive_at(haystack, needle, at)
}

fn stands_at(haystack: &[u8], needle: &[u8], at: usize) -> (found: bool)
    requires
        at + needle.len() <= haystack.len(),
    ensures
        found == insensitive_at(haystack@, needle@, at as int),
{
    let mut i: usize = 0;
    while i < needle.len()
        invariant
            i <= needle.len(),
            at + needle.len() <= haystack.len(),
            forall|k: int|
                0 <= k < i ==> lowered(haystack@[at + k]) == lowered(#[trigger] needle@[k]),
        decreases needle.len() - i,
    {
        if lower(haystack[at + i]) != lower(needle[i]) {
            assert(lowered(haystack@[at + i]) != lowered(needle@[i as int]));
            return false;
        }
        i += 1;
    }
    true
}

/// Whether `needle` is not empty and stands in `haystack`, whatever the case
/// of its letters.
pub fn contains_ascii_case_insensitive(haystack: &[u8], needle: &[u8]) -> (found: bool)
    ensures
        found == holds_insensitive(haystack@, needle@),
{
    if needle.len() == 0 || needle.len() > haystack.len() {
        return false;
    }
    let last: usize = haystack.len() - needle.len();
    let mut at: usize = 0;
    while at <= last
        invariant
            0 < needle.len() <= haystack.len(),
            last == haystack.len() - needle.len(),
            at <= last + 1,
            forall|k: int| 0 <= k < at ==> !insensitive_at(haystack@, needle@, k),
        decreases last + 1 - at,
    {
        if stands_at(haystack, needle, at) {
            return true;
        }
        at += 1;
    }
    false
}

/// Whether `needle` is not empty and stands in `haystack`.
pub open spec fn holds_bytes(haystack: Seq<u8>, needle: Seq<u8>) -> bool {
    needle.len() > 0 && exists|at: int| occurs_at(haystack, needle, at)
}

fn bytes_at(haystack: &[u8], needle: &[u8], at: usize) -> (found: bool)
    requires
        at + needle.len() <= haystack.len(),
    ensures
        found == occurs_at(haystack@, needle@, at as int),
{
    let mut i: usize = 0;
    while i < needle.len()
        invariant
            i <= needle.len(),
            at + needle.len() <= haystack.len(),
            forall|k: int| 0 <= k < i ==> haystack@[at + k] == needle@[k],
        decreases needle.len() - i,
    {
        if haystack[at + i] != needle[i] {
            assert(haystack@.subrange(at as int, at + needle@.len())[i as int] != needle@[i as int]);
            return false;
        }
        i += 1;
    }
    assert(haystack@.subrange(at as int, at + needle@.len()) =~= needle@);
    true
}

/// Whether `needle` is not empty and stands in `haystack`.
pub fn contains(haystack: &[u8], needle: &[u8]) -> (found: bool)
    ensures
        found == holds_bytes(haystack@, needle@),
{
    if needle.len() == 0 || needle.len() > haystack.len() {
        return false;
    }
    let last: usize = haystack.len() - needle.len();
    let mut at: usize = 0;
    while at <= last
        invariant
            0 < needle.len() <= haystack.len(),
            last == haystack.len() - needle.len(),
            at <= last + 1,
            forall|k: int| 0 <= k < at ==> !occurs_at(haystack@, needle@, k),
        decreases last + 1 - at,
    {
        if bytes_at(haystack, needle, at) {
            return true;
        }
        at += 1;
    }
    false
}

/// A key that stands between two bytes that no identifier has is found,
/// whatever surrounds it and whatever the case it is written in, and so is a key
/// that stands alone.
pub proof fn lemma_delimited_key_is_found(
    before: Seq<u8>,
    left: u8,
    key: Seq<u8>,
    right: u8,
    after: Seq<u8>,
    needle: Seq<u8>,
)
    requires
        !(0x30 <= left <= 0x39 || 0x41 <= left <= 0x5a || 0x61 <= left <= 0x7a || left == 0x5f),
        !(0x30 <= right <= 0x39 || 0x41 <= right <= 0x5a || 0x61 <= right <= 0x7a || right == 0x5f),
        needle.len() > 0,
        key.len() == needle.len(),
        forall|i: int|
            0 <= i < key.len() ==> #[trigger] key[i] == needle[i] || key[i] == raised(needle[i]),
    ensures
        has_key(before + seq![left] + key + seq![right] + after, needle),
        has_key(key, needle),
{
    let whole = before + seq![left] + key + seq![right] + after;
    let at: int = before.len() as int + 1;
    assert forall|i: int| 0 <= i < needle.len() implies lowered(whole[at + i]) == lowered(
        #[trigger] needle[i],
    ) by {
        assert(whole[at + i] == key[i]);
    }
    assert(whole[at - 1] == left);
    assert(whole[at + needle.len()] == right);
    assert(key_at(whole, needle, at));
    assert(key_at(key, needle, 0));
}

/// A key is only found where its own letters stand between bytes that no
/// identifier has: after the match comes no letter, digit or underscore, and
/// before it neither.
pub proof fn lemma_found_key_stands_alone(haystack: Seq<u8>, needle: Seq<u8>)
    requires
        has_key(haystack, needle),
    ensures
        needle.len() > 0,
        exists|at: int| #[trigger]
            insensitive_at(haystack, needle, at) && (at == 0 || !is_name_byte(haystack[at - 1]))
                && (at + needle.len() == haystack.len() || !is_name_byte(
                haystack[at + needle.len()],
            )),
{
    let at = choose|at: int| key_at(haystack, needle, at);
    assert(insensitive_at(haystack, needle, at));
}

/// A letter, a digit or an underscore, in ASCII.
pub open spec fn is_name_byte(byte: u8) -> bool {
    ||| 0x61 <= byte <= 0x7a
    ||| 0x41 <= byte <= 0x5a
    ||| 0x30 <= byte <= 0x39
    ||| byte == 0x5f
}

/// A key of a field shows the field wherever it stands between spaces.
pub proof fn lemma_key_shows_its_field(
    field: SafeField,
    i: int,
    before: Seq<u8>,
    after: Seq<u8>,
)
    requires
        0 <= i < field.keys().len(),
    ensures
        field.shown_in(
            before + seq![0x20u8] + encode_utf8(field.keys()[i]@) + seq![0x20u8] + after,
        ),
{
    let key = encode_utf8(field.keys()[i]@);
    let whole = before + seq![0x20u8] + key + seq![0x20u8] + after;
    lemma_keys_hold_no_space(field, i);
    lemma_delimited_key_is_found(before, 0x20, key, 0x20, after, key);
    assert(has_key(whole, encode_utf8(field.keys()[i]@)));
}

/// Each field is shown by its own word, wherever that stands between spaces.
pub proof fn lemma_field_is_shown_by_its_word(before: Seq<u8>, after: Seq<u8>)
    ensures
        SafeField::Relay.shown_in(
            before + seq![0x20u8] + encode_utf8("relay"@) + seq![0x20u8] + after,
        ),
        SafeField::Tenant.shown_in(
            before + seq![0x20u8] + encode_utf8("tenant"@) + seq![0x20u8] + after,
        ),
        SafeField::Owner.shown_in(
            before + seq![0x20u8] + encode_utf8("owner"@) + seq![0x20u8] + after,
        ),
        SafeField::Route.shown_in(
            before + seq![0x20u8] + encode_utf8("route"@) + seq![0x20u8] + after,
        ),
        SafeField::Phase.shown_in(
            before + seq![0x20u8] + encode_utf8("phase"@) + seq![0x20u8] + after,
        ),
        SafeField::EpochGenerationFence.shown_in(
            before + seq![0x20u8] + encode_utf8("epoch"@) + seq![0x20u8] + after,
        ),
        SafeField::RevocationOwnerDeath.shown_in(
            before + seq![0x20u8] + encode_utf8("revocation"@) + seq![0x20u8] + after,
        ),
        SafeField::Counter.shown_in(
            before + seq![0x20u8] + encode_utf8("counter"@) + seq![0x20u8] + after,
        ),
        SafeField::CloseCause.shown_in(
            before + seq![0x20u8] + encode_utf8("close_cause"@) + seq![0x20u8] + after,
        ),
{
    lemma_key_shows_its_field(SafeField::Relay, 0, before, after);
    lemma_key_shows_its_field(SafeField::Tenant, 0, before, after);
    lemma_key_shows_its_field(SafeField::Owner, 0, before, after);
    lemma_key_shows_its_field(SafeField::Route, 0, before, after);
    lemma_key_shows_its_field(SafeField::Phase, 0, before, after);
    lemma_key_shows_its_field(SafeField::EpochGenerationFence, 0, before, after);
    lemma_key_shows_its_field(SafeField::RevocationOwnerDeath, 0, before, after);
    lemma_key_shows_its_field(SafeField::Counter, 0, before, after);
    lemma_key_shows_its_field(SafeField::CloseCause, 2, before, after);
}

/// A value stands in the bytes exactly when they are that value with something,
/// possibly nothing, before it and after it.
pub proof fn lemma_held_bytes(haystack: Seq<u8>, needle: Seq<u8>)
    ensures
        needle.len() == 0 ==> !holds_bytes(haystack, needle),
        needle.len() > 0 ==> (holds_bytes(haystack, needle) <==> exists|
            before: Seq<u8>,
            after: Seq<u8>,
        | haystack == #[trigger] (before + needle + after)),
{
    if holds_bytes(haystack, needle) {
        let at = choose|at: int| occurs_at(haystack, needle, at);
        let before = haystack.subrange(0, at);
        let after = haystack.subrange(at + needle.len(), haystack.len() as int);
        assert(haystack =~= before + needle + after);
    }
    if needle.len() > 0 && exists|before: Seq<u8>, after: Seq<u8>|
        haystack == #[trigger] (before + needle + after) {
        let (before, after) = choose|before: Seq<u8>, after: Seq<u8>|
            haystack == #[trigger] (before + needle + after);
        assert(haystack.subrange(before.len() as int, before.len() + needle.len() as int)
            =~= needle);
        assert(occurs_at(haystack, needle, before.len() as int));
    }
}

/// A value stands in the bytes whatever the case of its letters exactly when
/// they are some spelling of it with something, possibly nothing, around it.
pub proof fn lemma_held_in_any_case(haystack: Seq<u8>, needle: Seq<u8>)
    ensures
        needle.len() == 0 ==> !holds_insensitive(haystack, needle),
        needle.len() > 0 ==> (holds_insensitive(haystack, needle) <==> exists|
            before: Seq<u8>,
            spelled: Seq<u8>,
            after: Seq<u8>,
        |
            haystack == #[trigger] (before + spelled + after) && in_capitals(spelled)
                == in_capitals(needle)),
{
    if holds_insensitive(haystack, needle) {
        let at = choose|at: int| insensitive_at(haystack, needle, at);
        let before = haystack.subrange(0, at);
        let spelled = haystack.subrange(at, at + needle.len());
        let after = haystack.subrange(at + needle.len(), haystack.len() as int);
        assert(haystack =~= before + spelled + after);
        assert forall|i: int| 0 <= i < needle.len() implies raised(#[trigger] spelled[i]) == raised(
            needle[i],
        ) by {
            assert(spelled[i] == haystack[at + i]);
            assert(lowered(haystack[at + i]) == lowered(needle[i]));
        }
        assert(in_capitals(spelled) =~= in_capitals(needle));
    }
    if needle.len() > 0 && exists|before: Seq<u8>, spelled: Seq<u8>, after: Seq<u8>|
        haystack == #[trigger] (before + spelled + after) && in_capitals(spelled) == in_capitals(
            needle,
        ) {
        let (before, spelled, after) = choose|before: Seq<u8>, spelled: Seq<u8>, after: Seq<u8>|
            haystack == #[trigger] (before + spelled + after) && in_capitals(spelled)
                == in_capitals(needle);
        assert(in_capitals(spelled).len() == in_capitals(needle).len());
        let at = before.len() as int;
        assert forall|i: int| 0 <= i < needle.len() implies lowered(haystack[at + i]) == lowered(
            #[trigger] needle[i],
        ) by {
            assert(haystack[at + i] == spelled[i]);
            assert(in_capitals(spelled)[i] == in_capitals(needle)[i]);
        }
        assert(insensitive_at(haystack, needle, at));
    }
}

/// What shows each field, key by key.
pub proof fn lemma_keys_of_fields(bytes: Seq<u8>)
    ensures
        SafeField::Relay.shown_in(bytes) <==> {
            ||| has_key(bytes, encode_utf8("relay"@))
            ||| has_key(bytes, encode_utf8("relays"@))
        },
        SafeField::Tenant.shown_in(bytes) <==> {
            ||| has_key(bytes, encode_utf8("tenant"@))
            ||| has_key(bytes, encode_utf8("tenants"@))
            ||| has_key(bytes, encode_utf8("tenant_id"@))
        },
        SafeField::Owner.shown_in(bytes) <==> {
            ||| has_key(bytes, encode_utf8("owner"@))
            ||| has_key(bytes, encode_utf8("owners"@))
            ||| has_key(bytes, encode_utf8("owner_id"@))
            ||| has_key(bytes, encode_utf8("owner_relay"@))
            ||| has_key(bytes, encode_utf8("target_owner"@))
            ||| has_key(bytes, encode_utf8("sibling_owner"@))
        },
        SafeField::Route.shown_in(bytes) <==> {
            ||| has_key(bytes, encode_utf8("route"@))
            ||| has_key(bytes, encode_utf8("peer_ready"@))
            ||| has_key(bytes, encode_utf8("ingress"@))
            ||| has_key(bytes, encode_utf8("ingress_node"@))
            ||| has_key(bytes, encode_utf8("ingress_relays"@))
        },
        SafeField::Phase.shown_in(bytes) <==> {
            ||| has_key(bytes, encode_utf8("phase"@))
            ||| has_key(bytes, encode_utf8("stage"@))
        },
        SafeField::EpochGenerationFence.shown_in(bytes) <==> {
            ||| has_key(bytes, encode_utf8("epoch"@))
            ||| has_key(bytes, encode_utf8("generation"@))
            ||| has_key(bytes, encode_utf8("active_generation"@))
            ||| has_key(bytes, encode_utf8("candidate_generation"@))
            ||| has_key(bytes, encode_utf8("fence"@))
        },
        SafeField::RevocationOwnerDeath.shown_in(bytes) <==> {
            ||| has_key(bytes, encode_utf8("revocation"@))
            ||| has_key(bytes, encode_utf8("owner_death"@))
            ||| has_key(bytes, encode_utf8("owner-death"@))
            ||| has_key(bytes, encode_utf8("owner_loss"@))
            ||| has_key(bytes, encode_utf8("key_revocation"@))
        },
        SafeField::Counter.shown_in(bytes) <==> {
            ||| has_key(bytes, encode_utf8("counter"@))
            ||| has_key(bytes, encode_utf8("dispatch"@))
            ||| has_key(bytes, encode_utf8("dispatches"@))
            ||| has_key(bytes, encode_utf8("dispatch_counter"@))
            ||| has_key(bytes, encode_utf8("queue_messages"@))
            ||| has_key(bytes, encode_utf8("queue_bytes"@))
            ||| has_key(bytes, encode_utf8("lifetime_application_dispatches"@))
            ||| has_key(bytes, encode_utf8("active_connections"@))
            ||| has_key(bytes, encode_utf8("streams"@))
            ||| has_key(bytes, encode_utf8("sockets"@))
        },
        SafeField::CloseCause.shown_in(bytes) <==> {
            ||| has_key(bytes, encode_utf8("reason"@))
            ||| has_key(bytes, encode_utf8("close"@))
            ||| has_key(bytes, encode_utf8("close_cause"@))
            ||| has_key(bytes, encode_utf8("cause"@))
            ||| has_key(bytes, encode_utf8("terminal"@))
            ||| has_key(bytes, encode_utf8("terminal_reason"@))
            ||| has_key(bytes, encode_utf8("terminal_event"@))
            ||| has_key(bytes, encode_utf8("terminal_events"@))
            ||| has_key(bytes, encode_utf8("session_terminal_events"@))
            ||| has_key(bytes, encode_utf8("rotation_recovery_reason"@))
            ||| has_key(bytes, encode_utf8("post_terminal"@))
        },
{
    lemma_relay_keys(bytes);
    lemma_tenant_keys(bytes);
    lemma_owner_keys(bytes);
    lemma_route_keys(bytes);
    lemma_phase_keys(bytes);
    lemma_fence_keys(bytes);
    lemma_death_keys(bytes);
    lemma_counter_keys(bytes);
    lemma_close_keys(bytes);
}

proof fn lemma_relay_keys(bytes: Seq<u8>)
    ensures
        SafeField::Relay.shown_in(bytes) <==> {
            ||| has_key(bytes, encode_utf8("relay"@))
            ||| has_key(bytes, encode_utf8("relays"@))
        },
{
    let keys = SafeField::Relay.keys();
    assert(keys.len() == 2);
    assert(keys[0]@ == "relay"@);
    assert(keys[1]@ == "relays"@);
}

proof fn lemma_tenant_keys(bytes: Seq<u8>)
    ensures
        SafeField::Tenant.shown_in(bytes) <==> {
            ||| has_key(bytes, encode_utf8("tenant"@))
            ||| has_key(bytes, encode_utf8("tenants"@))
            ||| has_key(bytes, encode_utf8("tenant_id"@))
        },
{
    let keys = SafeField::Tenant.keys();
    assert(keys.len() == 3);
    assert(keys[0]@ == "tenant"@);
    assert(keys[1]@ == "tenants"@);
    assert(keys[2]@ == "tenant_id"@);
}

proof fn lemma_owner_keys(bytes: Seq<u8>)
    ensures
        SafeField::Owner.shown_in(bytes) <==> {
            ||| has_key(bytes, encode_utf8("owner"@))
            ||| has_key(bytes, encode_utf8("owners"@))
            ||| has_key(bytes, encode_utf8("owner_id"@))
            ||| has_key(bytes, encode_utf8("owner_relay"@))
            ||| has_key(bytes, encode_utf8("target_owner"@))
            ||| has_key(bytes, encode_utf8("sibling_owner"@))
        },
{
    let keys = SafeField::Owner.keys();
    assert(keys.len() == 6);
    assert(keys[0]@ == "owner"@);
    assert(keys[1]@ == "owners"@);
    assert(keys[2]@ == "owner_id"@);
    assert(keys[3]@ == "owner_relay"@);
    assert(keys[4]@ == "target_owner"@);
    assert(keys[5]@ == "sibling_owner"@);
}

proof fn lemma_route_keys(bytes: Seq<u8>)
    ensures
        SafeField::Route.shown_in(bytes) <==> {
            ||| has_key(bytes, encode_utf8("route"@))
            ||| has_key(bytes, encode_utf8("peer_ready"@))
            ||| has_key(bytes, encode_utf8("ingress"@))
            ||| has_key(bytes, encode_utf8("ingress_node"@))
            ||| has_key(bytes, encode_utf8("ingress_relays"@))
        },
{
    let keys = SafeField::Route.keys();
    assert(keys.len() == 5);
    assert(keys[0]@ == "route"@);
    assert(keys[1]@ == "peer_ready"@);
    assert(keys[2]@ == "ingress"@);
    assert(keys[3]@ == "ingress_node"@);
    assert(keys[4]@ == "ingress_relays"@);
}

proof fn lemma_phase_keys(bytes: Seq<u8>)
    ensures
        SafeField::Phase.shown_in(bytes) <==> {
            ||| has_key(bytes, encode_utf8("phase"@))
            ||| has_key(bytes, encode_utf8("stage"@))
        },
{
    let keys = SafeField::Phase.keys();
    assert(keys.len() == 2);
    assert(keys[0]@ == "phase"@);
    assert(keys[1]@ == "stage"@);
}

proof fn lemma_fence_keys(bytes: Seq<u8>)
    ensures
        SafeField::EpochGenerationFence.shown_in(bytes) <==> {
            ||| has_key(bytes, encode_utf8("epoch"@))
            ||| has_key(bytes, encode_utf8("generation"@))
            ||| has_key(bytes, encode_utf8("active_generation"@))
            ||| has_key(bytes, encode_utf8("candidate_generation"@))
            ||| has_key(bytes, encode_utf8("fence"@))
        },
{
    let keys = SafeField::EpochGenerationFence.keys();
    assert(keys.len() == 5);
    assert(keys[0]@ == "epoch"@);
    assert(keys[1]@ == "generation"@);
    assert(keys[2]@ == "active_generation"@);
    assert(keys[3]@ == "candidate_generation"@);
    assert(keys[4]@ == "fence"@);
}

proof fn lemma_death_keys(bytes: Seq<u8>)
    ensures
        SafeField::RevocationOwnerDeath.shown_in(bytes) <==> {
            ||| has_key(bytes, encode_utf8("revocation"@))
            ||| has_key(bytes, encode_utf8("owner_death"@))
            ||| has_key(bytes, encode_utf8("owner-death"@))
            ||| has_key(bytes, encode_utf8("owner_loss"@))
            ||| has_key(bytes, encode_utf8("key_revocation"@))
        },
{
    let keys = SafeField::RevocationOwnerDeath.keys();
    assert(keys.len() == 5);
    assert(keys[0]@ == "revocation"@);
    assert(keys[1]@ == "owner_death"@);
    assert(keys[2]@ == "owner-death"@);
    assert(keys[3]@ == "owner_loss"@);
    assert(keys[4]@ == "key_revocation"@);
}

proof fn lemma_counter_keys(bytes: Seq<u8>)
    ensures
        SafeField::Counter.shown_in(bytes) <==> {
            ||| has_key(bytes, encode_utf8("counter"@))
            ||| has_key(bytes, encode_utf8("dispatch"@))
            ||| has_key(bytes, encode_utf8("dispatches"@))
            ||| has_key(bytes, encode_utf8("dispatch_counter"@))
            ||| has_key(bytes, encode_utf8("queue_messages"@))
            ||| has_key(bytes, encode_utf8("queue_bytes"@))
            ||| has_key(bytes, encode_utf8("lifetime_application_dispatches"@))
            ||| has_key(bytes, encode_utf8("active_connections"@))
            ||| has_key(bytes, encode_utf8("streams"@))
            ||| has_key(bytes, encode_utf8("sockets"@))
        },
{
    let keys = SafeField::Counter.keys();
    assert(keys.len() == 10);
    assert(keys[0]@ == "counter"@);
    assert(keys[1]@ == "dispatch"@);
    assert(keys[2]@ == "dispatches"@);
    assert(keys[3]@ == "dispatch_counter"@);
    assert(keys[4]@ == "queue_messages"@);
    assert(keys[5]@ == "queue_bytes"@);
    assert(keys[6]@ == "lifetime_application_dispatches"@);
    assert(keys[7]@ == "active_connections"@);
    assert(keys[8]@ == "streams"@);
    assert(keys[9]@ == "sockets"@);
}

proof fn lemma_close_keys(bytes: Seq<u8>)
    ensures
        SafeField::CloseCause.shown_in(bytes) <==> {
            ||| has_key(bytes, encode_utf8("reason"@))
            ||| has_key(bytes, encode_utf8("close"@))
            ||| has_key(bytes, encode_utf8("close_cause"@))
            ||| has_key(bytes, encode_utf8("cause"@))
            ||| has_key(bytes, encode_utf8("terminal"@))
            ||| has_key(bytes, encode_utf8("terminal_reason"@))
            ||| has_key(bytes, encode_utf8("terminal_event"@))
            ||| has_key(bytes, encode_utf8("terminal_events"@))
            ||| has_key(bytes, encode_utf8("session_terminal_events"@))
            ||| has_key(bytes, encode_utf8("rotation_recovery_reason"@))
            ||| has_key(bytes, encode_utf8("post_terminal"@))
        },
{
    let keys = SafeField::CloseCause.keys();
    assert(keys.len() == 11);
    assert(keys[0]@ == "reason"@);
    assert(keys[1]@ == "close"@);
    assert(keys[2]@ == "close_cause"@);
    assert(keys[3]@ == "cause"@);
    assert(keys[4]@ == "terminal"@);
    assert(keys[5]@ == "terminal_reason"@);
    assert(keys[6]@ == "terminal_event"@);
    assert(keys[7]@ == "terminal_events"@);
    assert(keys[8]@ == "session_terminal_events"@);
    assert(keys[9]@ == "rotation_recovery_reason"@);
    assert(keys[10]@ == "post_terminal"@);
}

} // verus!
