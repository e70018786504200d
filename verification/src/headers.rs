//! The header map of a request or response, with the two side tables that
//! preserve the caller's original spelling and insertion order.
//!
//! The underlying multimap is `http::HeaderMap`, which normalizes names to
//! lowercase; it is consumed through trusted wrappers whose contracts
//! speak over the uninterpreted `hm_entries` model.  The two side tables
//! are this crate's own: `HeaderCaseMap` keeps, per lowercase name and in
//! insertion order, the spellings the caller used; `OriginalHeaderOrder`
//! keeps the list of (name, per-name index) pairs in overall insertion
//! order.  Iteration reconstructs name/value pairs from the three so that
//! the observed casing and order match what was set.

use vstd::prelude::*;

verus! {

use crate::FLUXIO_ITER_CONTINUE;
use crate::error::fluxio_code;

// ===== byte-level validity of names and values =====

/// Lowercase a single ASCII byte.
pub open spec fn lower_byte(b: u8) -> u8 {
    if 65 <= b && b <= 90 {
        (b + 32) as u8
    } else {
        b
    }
}

/// Lowercase a byte sequence.
pub open spec fn lower_seq(s: Seq<u8>) -> Seq<u8> {
    s.map_values(|b: u8| lower_byte(b))
}

/// The bytes allowed in a header name (an RFC 7230 token byte).
pub open spec fn valid_name_byte(b: u8) -> bool {
    (48 <= b && b <= 57) || (65 <= b && b <= 90) || (97 <= b && b <= 122) || b == 33 || b == 35
        || b == 36 || b == 37 || b == 38 || b == 39 || b == 42 || b == 43 || b == 45 || b == 46
        || b == 94 || b == 95 || b == 96 || b == 124 || b == 126
}

/// A byte sequence that parses as a header name: a nonempty token of at
/// most 65535 bytes.
pub open spec fn valid_header_name(s: Seq<u8>) -> bool {
    1 <= s.len() <= 65535 && forall|i: int| 0 <= i < s.len() ==> valid_name_byte(s[i])
}

/// The bytes allowed in a header value: visible bytes, space and tab.
pub open spec fn valid_value_byte(b: u8) -> bool {
    (b >= 32 && b != 127) || b == 9
}

/// A byte sequence that parses as a header value.
pub open spec fn valid_header_value(s: Seq<u8>) -> bool {
    forall|i: int| 0 <= i < s.len() ==> valid_value_byte(s[i])
}

/// A name that is already in its lowercase, normalized form.
pub open spec fn is_lower_name(s: Seq<u8>) -> bool {
    valid_header_name(s) && s == lower_seq(s)
}

pub proof fn lemma_lower_idempotent(s: Seq<u8>)
    ensures
        lower_seq(lower_seq(s)) == lower_seq(s),
{
    assert(lower_seq(lower_seq(s)) =~= lower_seq(s));
}

pub proof fn lemma_lower_valid(s: Seq<u8>)
    requires
        valid_header_name(s),
    ensures
        is_lower_name(lower_seq(s)),
{
    assert(valid_header_name(lower_seq(s))) by {
        assert(forall|i: int| 0 <= i < s.len() ==> valid_name_byte(#[trigger] lower_seq(s)[i]))
            by {
            assert(forall|i: int|
                0 <= i < s.len() ==> #[trigger] lower_seq(s)[i] == lower_byte(s[i]));
        }
    }
    lemma_lower_idempotent(s);
}

// ===== the http::HeaderMap multimap, behind trusted wrappers =====

#[verifier::external_type_specification]
#[verifier::external_body]
pub struct ExHeaderValue(http::HeaderValue);

#[verifier::external_type_specification]
#[verifier::external_body]
#[verifier::reject_recursive_types(T)]
pub struct ExHeaderMap<T>(http::HeaderMap<T>);

/// What an `http::HeaderMap` holds: for each present lowercase name, the
/// list of its values in insertion order.
pub uninterp spec fn hm_entries(m: http::HeaderMap) -> Map<Seq<u8>, Seq<Seq<u8>>>;

/// How many distinct names an `http::HeaderMap` holds.
pub uninterp spec fn hm_key_count(m: http::HeaderMap) -> nat;

/// A distinct-name count below which the map always accepts another
/// entry.  The map's inserts fail only when growing its index table past
/// its 1 << 15 slot bound is refused; the earliest state in which any of
/// its code paths asks for such a grow is the hash-collision rebuild at a
/// full table, which needs at least 32768 / 5 + 1 = 6554 occupied name
/// slots, and the ordinary growth path even needs 24576.
pub open spec fn hm_room_bound() -> nat {
    6554
}

/// The value list of a name, empty when the name is absent.
pub open spec fn hm_list(m: http::HeaderMap, name: Seq<u8>) -> Seq<Seq<u8>> {
    if hm_entries(m).dom().contains(name) {
        hm_entries(m)[name]
    } else {
        Seq::empty()
    }
}

/// The model of a header map with nothing in it.
pub open spec fn hm_empty_model() -> Map<Seq<u8>, Seq<Seq<u8>>> {
    Map::empty()
}

/// Relies on http::HeaderMap::new: the new map is empty.
#[verifier::external_body]
fn hm_new() -> (r: http::HeaderMap)
    ensures
        hm_entries(r) == hm_empty_model(),
        hm_key_count(r) == 0,
{
    http::HeaderMap::new()
}

/// A new, empty header map.
pub fn new_header_map() -> (r: http::HeaderMap)
    ensures
        hm_entries(r) == hm_empty_model(),
        hm_key_count(r) == 0,
{
    hm_new()
}

/// Relies on http::HeaderMap::try_insert (and on HeaderName::from_bytes /
/// HeaderValue::from_bytes to build the key and value, which cannot fail on
/// the admitted inputs): on success all previous values of the name are
/// removed and replaced by the one given; on failure (refusing to grow the
/// index table past its slot bound, which errors before any mutation)
/// nothing changes, and failure cannot happen below `hm_room_bound`
/// distinct names.
#[verifier::external_body]
fn hm_try_insert(m: &mut http::HeaderMap, name: &Vec<u8>, value: &Vec<u8>) -> (ok: bool)
    requires
        valid_header_name(name@),
        valid_header_value(value@),
    ensures
        ok ==> hm_entries(*final(m)) == hm_entries(*old(m)).insert(
            lower_seq(name@),
            seq![value@],
        ),
        ok ==> hm_key_count(*final(m)) == hm_key_count(*old(m)) + (if hm_entries(
            *old(m),
        ).dom().contains(lower_seq(name@)) {
            0nat
        } else {
            1nat
        }),
        !ok ==> (hm_entries(*final(m)) == hm_entries(*old(m)) && hm_key_count(*final(m))
            == hm_key_count(*old(m))),
        hm_key_count(*old(m)) < hm_room_bound() ==> ok,
{
    let n = http::HeaderName::from_bytes(name.as_slice()).unwrap();
    let v = http::HeaderValue::from_bytes(value.as_slice()).unwrap();
    m.try_insert(n, v).is_ok()
}

/// Relies on http::HeaderMap::try_append (and on HeaderName::from_bytes /
/// HeaderValue::from_bytes, which cannot fail on the admitted inputs): on
/// success the value is pushed to the end of the name's list; on failure
/// (refusing to grow the index table, which errors before any mutation)
/// nothing changes, and failure cannot happen below `hm_room_bound`
/// distinct names.
#[verifier::external_body]
fn hm_try_append(m: &mut http::HeaderMap, name: &Vec<u8>, value: &Vec<u8>) -> (ok: bool)
    requires
        valid_header_name(name@),
        valid_header_value(value@),
    ensures
        ok ==> hm_entries(*final(m)) == hm_entries(*old(m)).insert(
            lower_seq(name@),
            hm_list(*old(m), lower_seq(name@)).push(value@),
        ),
        ok ==> hm_key_count(*final(m)) == hm_key_count(*old(m)) + (if hm_entries(
            *old(m),
        ).dom().contains(lower_seq(name@)) {
            0nat
        } else {
            1nat
        }),
        !ok ==> (hm_entries(*final(m)) == hm_entries(*old(m)) && hm_key_count(*final(m))
            == hm_key_count(*old(m))),
        hm_key_count(*old(m)) < hm_room_bound() ==> ok,
{
    let n = http::HeaderName::from_bytes(name.as_slice()).unwrap();
    let v = http::HeaderValue::from_bytes(value.as_slice()).unwrap();
    m.try_append(n, v).is_ok()
}

/// Relies on http::HeaderMap::get_all (and on HeaderName::from_bytes, which
/// cannot fail on the admitted inputs): the returned view iterates the
/// name's values in insertion order.
#[verifier::external_body]
fn hm_get_all(m: &http::HeaderMap, name: &Vec<u8>) -> (r: Vec<Vec<u8>>)
    requires
        valid_header_name(name@),
    ensures
        r@.map_values(|v: Vec<u8>| v@) == hm_list(*m, lower_seq(name@)),
{
    let n = http::HeaderName::from_bytes(name.as_slice()).unwrap();
    m.get_all(&n).iter().map(|v| v.as_bytes().to_vec()).collect()
}

/// Relies on http::HeaderMap::keys: each present name is yielded exactly
/// once, in an order the map leaves unspecified, and every yielded name is
/// a normalized (lowercase) header name.
#[verifier::external_body]
fn hm_keys(m: &http::HeaderMap) -> (r: Vec<Vec<u8>>)
    ensures
        forall|i: int| 0 <= i < r@.len() ==> hm_entries(*m).dom().contains(#[trigger] r@[i]@),
        forall|i: int, j: int| 0 <= i < j < r@.len() ==> r@[i]@ != r@[j]@,
        forall|k: Seq<u8>|
            hm_entries(*m).dom().contains(k) ==> exists|i: int| 0 <= i < r@.len() && #[trigger] r@[i]@ == k,
        forall|i: int| 0 <= i < r@.len() ==> is_lower_name(#[trigger] r@[i]@),
{
    m.keys().map(|k| k.as_str().as_bytes().to_vec()).collect()
}

/// Relies on http::HeaderName::from_bytes: a name parses exactly when it is
/// a nonempty token of at most 65535 bytes, and parsing normalizes it to
/// lowercase.
#[verifier::external_body]
fn parse_header_name(name: &Vec<u8>) -> (r: Option<Vec<u8>>)
    ensures
        r is Some <==> valid_header_name(name@),
        r is Some ==> r->Some_0@ == lower_seq(name@),
{
    match http::HeaderName::from_bytes(name.as_slice()) {
        Ok(n) => Some(n.as_str().as_bytes().to_vec()),
        Err(_) => None,
    }
}

/// Relies on http::HeaderValue::from_bytes: a value parses exactly when
/// each of its bytes is a visible byte, space or tab.
#[verifier::external_body]
fn check_header_value(value: &Vec<u8>) -> (r: bool)
    ensures
        r <==> valid_header_value(value@),
{
    http::HeaderValue::from_bytes(value.as_slice()).is_ok()
}

// ===== small helpers =====

/// Byte-vector equality.
fn bytes_eq(a: &Vec<u8>, b: &Vec<u8>) -> (r: bool)
    ensures
        r <==> a@ == b@,
{
    if a.len() != b.len() {
        proof {
            assert(a@ != b@);
        }
        return false;
    }
    let mut i: usize = 0;
    while i < a.len()
        invariant
            i <= a.len(),
            a@.len() == b@.len(),
            forall|j: int| 0 <= j < i ==> a@[j] == b@[j],
        decreases a.len() - i,
    {
        if a[i] != b[i] {
            return false;
        }
        i = i + 1;
    }
    proof {
        assert(a@ =~= b@);
    }
    true
}

/// A copy of a byte vector.
pub fn copy_byte_vec(a: &Vec<u8>) -> (r: Vec<u8>)
    ensures
        r@ == a@,
{
    let r = a.clone();
    proof {
        assert(r@ =~= a@);
    }
    r
}

// ===== the original-casing side table =====

/// The spellings a name's occurrences were originally given, in insertion
/// order of the occurrences, as a sequence over the casing table's
/// entries.
pub open spec fn casing_list(casing: Seq<(Seq<u8>, Seq<u8>)>, name: Seq<u8>) -> Seq<Seq<u8>>
    decreases casing.len(),
{
    if casing.len() == 0 {
        Seq::empty()
    } else {
        let rest = casing_list(casing.drop_last(), name);
        if casing.last().0 == name {
            rest.push(casing.last().1)
        } else {
            rest
        }
    }
}

/// The casing table with every entry of the given name removed.
pub open spec fn casing_without(casing: Seq<(Seq<u8>, Seq<u8>)>, name: Seq<u8>) -> Seq<
    (Seq<u8>, Seq<u8>),
> {
    casing.filter(|p: (Seq<u8>, Seq<u8>)| p.0 != name)
}

/// A table of the original spellings of header names, keyed by the
/// normalized (lowercase) name.
pub struct HeaderCaseMap {
    entries: Vec<(Vec<u8>, Vec<u8>)>,
}

impl HeaderCaseMap {
    /// The (normalized name, original spelling) pairs, in insertion order.
    pub closed spec fn view_spec(&self) -> Seq<(Seq<u8>, Seq<u8>)> {
        self.entries@.map_values(|p: (Vec<u8>, Vec<u8>)| (p.0@, p.1@))
    }

    /// An empty table.
    pub fn new() -> (r: HeaderCaseMap)
        ensures
            r.view_spec() == Seq::<(Seq<u8>, Seq<u8>)>::empty(),
    {
        let r = HeaderCaseMap { entries: Vec::new() };
        proof {
            assert(r.view_spec() =~= Seq::<(Seq<u8>, Seq<u8>)>::empty());
        }
        r
    }

    /// Record one more spelling of a name.
    pub fn append_spelling(&mut self, name: Vec<u8>, orig: Vec<u8>)
        ensures
            final(self).view_spec() == old(self).view_spec().push((name@, orig@)),
    {
        let ghost pre = self.view_spec();
        self.entries.push((name, orig));
        proof {
            assert(self.view_spec() =~= pre.push((name@, orig@)));
        }
    }

    /// Replace every recorded spelling of a name with the one given.
    pub fn set_spelling(&mut self, name: Vec<u8>, orig: Vec<u8>)
        ensures
            final(self).view_spec() == casing_without(old(self).view_spec(), name@).push(
                (name@, orig@),
            ),
    {
        let mut kept: Vec<(Vec<u8>, Vec<u8>)> = Vec::new();
        let ghost pred = |p: (Seq<u8>, Seq<u8>)| p.0 != name@;
        let mut i: usize = 0;
        proof {
            assert(self.view_spec().take(0) =~= Seq::<(Seq<u8>, Seq<u8>)>::empty());
            assert(Seq::<(Seq<u8>, Seq<u8>)>::empty().filter(pred) =~= Seq::<
                (Seq<u8>, Seq<u8>),
            >::empty());
        }
        while i < self.entries.len()
            invariant
                i <= self.entries.len(),
                pred == (|p: (Seq<u8>, Seq<u8>)| p.0 != name@),
                kept@.map_values(|p: (Vec<u8>, Vec<u8>)| (p.0@, p.1@)) == self.view_spec().take(
                    i as int,
                ).filter(pred),
            decreases self.entries.len() - i,
        {
            let ghost prefix = self.view_spec().take(i as int);
            let keep = !bytes_eq(&self.entries[i].0, &name);
            proof {
                assert(self.view_spec().take(i + 1).drop_last() =~= prefix);
                assert(self.view_spec().take(i + 1) =~= prefix.push(self.view_spec()[i as int]));
                Seq::filter_distributes_over_add(
                    prefix,
                    seq![self.view_spec()[i as int]],
                    pred,
                );
                assert(prefix + seq![self.view_spec()[i as int]] =~= self.view_spec().take(
                    i + 1,
                ));
                assert(seq![self.view_spec()[i as int]].filter(pred) =~= if pred(
                    self.view_spec()[i as int],
                ) {
                    seq![self.view_spec()[i as int]]
                } else {
                    Seq::<(Seq<u8>, Seq<u8>)>::empty()
                }) by {
                    reveal_with_fuel(Seq::filter, 2);
                }
            }
            if keep {
                let n = copy_byte_vec(&self.entries[i].0);
                let v = copy_byte_vec(&self.entries[i].1);
                let ghost kpre = kept@.map_values(|p: (Vec<u8>, Vec<u8>)| (p.0@, p.1@));
                kept.push((n, v));
                proof {
                    assert(kept@.map_values(|p: (Vec<u8>, Vec<u8>)| (p.0@, p.1@)) =~= kpre.push(
                        self.view_spec()[i as int],
                    ));
                }
            }
            i = i + 1;
        }
        proof {
            assert(self.view_spec().take(self.entries.len() as int) =~= self.view_spec());
        }
        kept.push((name, orig));
        let ghost kfinal = kept@;
        self.entries = kept;
        proof {
            assert(self.view_spec() =~= casing_without(old(self).view_spec(), name@).push(
                (name@, orig@),
            ));
        }
    }

    /// The spellings recorded for a name, in insertion order.
    pub fn get_all_spellings(&self, name: &Vec<u8>) -> (r: Vec<Vec<u8>>)
        ensures
            r@.map_values(|v: Vec<u8>| v@) == casing_list(self.view_spec(), name@),
    {
        let mut out: Vec<Vec<u8>> = Vec::new();
        let mut i: usize = 0;
        proof {
            assert(self.view_spec().take(0) =~= Seq::<(Seq<u8>, Seq<u8>)>::empty());
        }
        while i < self.entries.len()
            invariant
                i <= self.entries.len(),
                out@.map_values(|v: Vec<u8>| v@) == casing_list(
                    self.view_spec().take(i as int),
                    name@,
                ),
            decreases self.entries.len() - i,
        {
            let ghost prefix = self.view_spec().take(i as int);
            proof {
                assert(self.view_spec().take(i + 1).drop_last() =~= prefix);
                assert(self.view_spec().take(i + 1).last() == self.view_spec()[i as int]);
            }
            if bytes_eq(&self.entries[i].0, name) {
                let ghost opre = out@.map_values(|v: Vec<u8>| v@);
                out.push(copy_byte_vec(&self.entries[i].1));
                proof {
                    assert(out@.map_values(|v: Vec<u8>| v@) =~= opre.push(
                        self.view_spec()[i as int].1,
                    ));
                }
            }
            i = i + 1;
        }
        proof {
            assert(self.view_spec().take(self.entries.len() as int) =~= self.view_spec());
        }
        out
    }
}

// ===== the original-order side table =====

/// How many entries of a name the order table holds.
pub open spec fn count_name(order: Seq<(Seq<u8>, usize)>, name: Seq<u8>) -> nat
    decreases order.len(),
{
    if order.len() == 0 {
        0
    } else {
        count_name(order.drop_last(), name) + if order.last().0 == name {
            1nat
        } else {
            0nat
        }
    }
}

/// Every entry's per-name index equals the number of earlier entries of
/// the same name: the shape the table's own operations always produce.
pub open spec fn well_ordered(order: Seq<(Seq<u8>, usize)>) -> bool {
    forall|p: int|
        0 <= p < order.len() ==> (#[trigger] order[p]).1 == count_name(
            order.take(p),
            order[p].0,
        )
}

/// The overall insertion order of header entries: one (normalized name,
/// per-name index) pair per entry, oldest first.
pub struct OriginalHeaderOrder {
    entry_order: Vec<(Vec<u8>, usize)>,
}

impl OriginalHeaderOrder {
    /// The (normalized name, per-name index) pairs, oldest first.
    pub closed spec fn view_spec(&self) -> Seq<(Seq<u8>, usize)> {
        self.entry_order@.map_values(|p: (Vec<u8>, usize)| (p.0@, p.1))
    }

    /// An empty order table.
    pub fn new() -> (r: OriginalHeaderOrder)
        ensures
            r.view_spec() == Seq::<(Seq<u8>, usize)>::empty(),
    {
        let r = OriginalHeaderOrder { entry_order: Vec::new() };
        proof {
            assert(r.view_spec() =~= Seq::<(Seq<u8>, usize)>::empty());
        }
        r
    }

    /// How many entries of a name the table holds.
    fn count(&self, name: &Vec<u8>) -> (r: usize)
        ensures
            r == count_name(self.view_spec(), name@),
    {
        let mut c: usize = 0;
        let mut i: usize = 0;
        proof {
            assert(self.view_spec().take(0) =~= Seq::<(Seq<u8>, usize)>::empty());
        }
        while i < self.entry_order.len()
            invariant
                i <= self.entry_order.len(),
                c == count_name(self.view_spec().take(i as int), name@),
                c <= i,
            decreases self.entry_order.len() - i,
        {
            proof {
                assert(self.view_spec().take(i + 1).drop_last() =~= self.view_spec().take(
                    i as int,
                ));
                assert(self.view_spec().take(i + 1).last() == self.view_spec()[i as int]);
            }
            if bytes_eq(&self.entry_order[i].0, name) {
                c = c + 1;
            }
            i = i + 1;
        }
        proof {
            assert(self.view_spec().take(self.entry_order.len() as int) =~= self.view_spec());
        }
        c
    }

    /// Record one more entry of a name, at the next per-name index.
    pub fn append_entry(&mut self, name: Vec<u8>)
        ensures
            final(self).view_spec() == old(self).view_spec().push(
                (name@, count_name(old(self).view_spec(), name@) as usize),
            ),
            count_name(old(self).view_spec(), name@) <= usize::MAX,
    {
        let idx = self.count(&name);
        let ghost pre = self.view_spec();
        proof {
            lemma_count_le_len(pre, name@);
        }
        self.entry_order.push((name, idx));
        proof {
            assert(self.view_spec() =~= pre.push((name@, idx)));
        }
    }

    /// Record a name's first entry, if the name has none yet; replacing an
    /// already recorded name does not change the order.
    pub fn insert_entry(&mut self, name: Vec<u8>)
        ensures
            count_name(old(self).view_spec(), name@) == 0 ==> final(self).view_spec() == old(self).view_spec().push((name@, 0usize)),
            count_name(old(self).view_spec(), name@) != 0 ==> final(self).view_spec() == old(self).view_spec(),
    {
        let c = self.count(&name);
        if c == 0 {
            let ghost pre = self.view_spec();
            self.entry_order.push((name, 0));
            proof {
                assert(self.view_spec() =~= pre.push((name@, 0usize)));
            }
        }
    }

    /// The number of entries.
    pub fn len(&self) -> (r: usize)
        ensures
            r == self.view_spec().len(),
    {
        self.entry_order.len()
    }

    /// The entry at a position: its name and per-name index.
    pub fn entry_at(&self, i: usize) -> (r: (Vec<u8>, usize))
        requires
            i < self.view_spec().len(),
        ensures
            (r.0@, r.1) == self.view_spec()[i as int],
    {
        let name = copy_byte_vec(&self.entry_order[i].0);
        (name, self.entry_order[i].1)
    }
}

/// A name's count never exceeds the table's length.
pub proof fn lemma_count_le_len(order: Seq<(Seq<u8>, usize)>, name: Seq<u8>)
    ensures
        count_name(order, name) <= order.len(),
    decreases order.len(),
{
    if order.len() > 0 {
        lemma_count_le_len(order.drop_last(), name);
    }
}

/// Appending an entry preserves the positional-index shape.
pub proof fn lemma_well_ordered_push(order: Seq<(Seq<u8>, usize)>, name: Seq<u8>, c: usize)
    requires
        well_ordered(order),
        c == count_name(order, name),
    ensures
        well_ordered(order.push((name, c))),
{
    let pushed = order.push((name, c));
    assert forall|p: int| 0 <= p < pushed.len() implies (#[trigger] pushed[p]).1 == count_name(
        pushed.take(p),
        pushed[p].0,
    ) by {
        if p < order.len() {
            assert(pushed.take(p) =~= order.take(p));
        } else {
            assert(pushed.take(p) =~= order);
        }
    }
}

// ===== the header collection itself =====

/// The value list of a name in a header map model, empty when absent.
pub open spec fn list_of(m: Map<Seq<u8>, Seq<Seq<u8>>>, name: Seq<u8>) -> Seq<Seq<u8>> {
    if m.dom().contains(name) {
        m[name]
    } else {
        Seq::empty()
    }
}

/// An HTTP header map together with the side tables that remember the
/// caller's original casing and insertion order.
pub struct fluxio_headers {
    headers: http::HeaderMap,
    orig_casing: HeaderCaseMap,
    orig_order: OriginalHeaderOrder,
}

impl fluxio_headers {
    /// The multimap of normalized names to value lists.
    pub closed spec fn headers_model(&self) -> Map<Seq<u8>, Seq<Seq<u8>>> {
        hm_entries(self.headers)
    }

    /// The original-casing side table.
    pub closed spec fn casing_spec(&self) -> Seq<(Seq<u8>, Seq<u8>)> {
        self.orig_casing.view_spec()
    }

    /// The original-order side table.
    pub closed spec fn order_spec(&self) -> Seq<(Seq<u8>, usize)> {
        self.orig_order.view_spec()
    }

    /// How many distinct names the header map holds.
    pub closed spec fn name_count(&self) -> nat {
        hm_key_count(self.headers)
    }

    /// Well-formedness: the side tables hold normalized names, and the
    /// order table has the positional-index shape its operations produce.
    pub open spec fn wf(&self) -> bool {
        &&& well_ordered(self.order_spec())
        &&& forall|p: int|
            0 <= p < self.order_spec().len() ==> is_lower_name(
                (#[trigger] self.order_spec()[p]).0,
            )
        &&& forall|p: int|
            0 <= p < self.casing_spec().len() ==> is_lower_name(
                (#[trigger] self.casing_spec()[p]).0,
            )
    }

    /// The three value lists agree with the order table's counts: the
    /// shape that add/set sequences keep, and that full iteration needs.
    pub open spec fn consistent(&self) -> bool {
        tables_consistent(self.headers_model(), self.casing_spec(), self.order_spec())
    }

    /// An empty header collection.
    pub fn empty() -> (r: fluxio_headers)
        ensures
            r.headers_model() == hm_empty_model(),
            r.casing_spec() == Seq::<(Seq<u8>, Seq<u8>)>::empty(),
            r.order_spec() == Seq::<(Seq<u8>, usize)>::empty(),
            r.name_count() == 0,
            r.wf(),
            r.consistent(),
    {
        let r = fluxio_headers {
            headers: hm_new(),
            orig_casing: HeaderCaseMap::new(),
            orig_order: OriginalHeaderOrder::new(),
        };
        proof {
            assert(r.consistent()) by {
                assert forall|name: Seq<u8>|
                    list_of(r.headers_model(), name).len() == count_name(r.order_spec(), name)
                        && casing_list(r.casing_spec(), name).len() == count_name(
                        r.order_spec(),
                        name,
                    ) by {
                    assert(!r.headers_model().dom().contains(name));
                }
            }
        }
        r
    }

    /// Rebuild a collection from its parts, as when an engine response
    /// hands its header map and side tables back across the boundary.
    pub fn assemble(
        headers: http::HeaderMap,
        orig_casing: HeaderCaseMap,
        orig_order: OriginalHeaderOrder,
    ) -> (r: fluxio_headers)
        ensures
            r.headers_model() == hm_entries(headers),
            r.casing_spec() == orig_casing.view_spec(),
            r.order_spec() == orig_order.view_spec(),
            r.name_count() == hm_key_count(headers),
    {
        fluxio_headers { headers, orig_casing, orig_order }
    }

    /// Take the collection apart: the map and the two side tables.
    pub fn into_parts(self) -> (r: (http::HeaderMap, HeaderCaseMap, OriginalHeaderOrder))
        ensures
            hm_entries(r.0) == self.headers_model(),
            r.1.view_spec() == self.casing_spec(),
            r.2.view_spec() == self.order_spec(),
    {
        let fluxio_headers { headers, orig_casing, orig_order } = self;
        (headers, orig_casing, orig_order)
    }

    /// The header collection of a request or response, created empty on
    /// first use.
    pub fn get_or_default(ext: &mut Option<fluxio_headers>) -> (r: &mut fluxio_headers)
        ensures
            (*old(ext)) is Some ==> *r == (*old(ext))->Some_0,
            (*old(ext)) is None ==> (r.headers_model() == hm_empty_model() && r.casing_spec()
                == Seq::<(Seq<u8>, Seq<u8>)>::empty() && r.order_spec() == Seq::<(
                Seq<u8>,
                usize,
            )>::empty() && r.name_count() == 0 && r.wf() && r.consistent()),
            *final(ext) == Some(*final(r)),
    {
        if ext.is_none() {
            *ext = Some(fluxio_headers::default());
        }
        match ext {
            Some(h) => h,
            None => vstd::pervasive::unreached(),
        }
    }
}

impl Default for fluxio_headers {
    /// A fresh, empty header collection.
    fn default() -> (r: fluxio_headers)
        ensures
            r.headers_model() == hm_empty_model(),
            r.casing_spec() == Seq::<(Seq<u8>, Seq<u8>)>::empty(),
            r.order_spec() == Seq::<(Seq<u8>, usize)>::empty(),
            r.name_count() == 0,
            r.wf(),
            r.consistent(),
    {
        fluxio_headers::empty()
    }
}

/// Validate one name/value pair: the normalized name, the value, and a
/// copy of the name's original spelling.
pub fn raw_name_value(name: &Vec<u8>, value: &Vec<u8>) -> (r: Result<
    (Vec<u8>, Vec<u8>, Vec<u8>),
    fluxio_code,
>)
    ensures
        r is Ok <==> (valid_header_name(name@) && valid_header_value(value@)),
        r is Ok ==> r->Ok_0.0@ == lower_seq(name@) && r->Ok_0.1@ == value@ && r->Ok_0.2@
            == name@,
        r is Err ==> r->Err_0 == fluxio_code::FLUXIO_INVALID_ARG,
{
    let orig = copy_byte_vec(name);
    match parse_header_name(name) {
        Some(lower) => {
            if check_header_value(value) {
                Ok((lower, copy_byte_vec(value), orig))
            } else {
                Err(fluxio_code::FLUXIO_INVALID_ARG)
            }
        },
        None => Err(fluxio_code::FLUXIO_INVALID_ARG),
    }
}

/// Adds the provided value to the list of the provided name: existing
/// values for the name keep their places and the new one joins the end of
/// the iteration order.
pub fn fluxio_headers_add(h: &mut fluxio_headers, name: &Vec<u8>, value: &Vec<u8>) -> (r:
    fluxio_code)
    requires
        old(h).wf(),
    ensures
        final(h).wf(),
        r == fluxio_code::FLUXIO_OK || r == fluxio_code::FLUXIO_INVALID_ARG || r
            == fluxio_code::FLUXIO_ERROR,
        (r == fluxio_code::FLUXIO_INVALID_ARG <==> !(valid_header_name(name@)
            && valid_header_value(value@))),
        (valid_header_name(name@) && valid_header_value(value@) && old(h).name_count()
            < hm_room_bound()) ==> r == fluxio_code::FLUXIO_OK,
        r != fluxio_code::FLUXIO_OK ==> (final(h).headers_model() == old(h).headers_model()
            && final(h).casing_spec() == old(h).casing_spec() && final(h).order_spec() == old(h).order_spec()
            && final(h).name_count() == old(h).name_count()),
        r == fluxio_code::FLUXIO_OK ==> final(h).name_count() <= old(h).name_count() + 1,
        r == fluxio_code::FLUXIO_OK ==> final(h).headers_model() == old(h).headers_model().insert(
            lower_seq(name@),
            list_of(old(h).headers_model(), lower_seq(name@)).push(value@),
        ),
        r == fluxio_code::FLUXIO_OK ==> final(h).casing_spec() == old(h).casing_spec().push(
            (lower_seq(name@), name@),
        ),
        r == fluxio_code::FLUXIO_OK ==> final(h).order_spec() == old(h).order_spec().push(
            (lower_seq(name@), count_name(old(h).order_spec(), lower_seq(name@)) as usize),
        ),
        r == fluxio_code::FLUXIO_OK && old(h).consistent() ==> final(h).consistent(),
{
    match raw_name_value(name, value) {
        Err(code) => code,
        Ok((lower, val, orig)) => {
            proof {
                lemma_lower_valid(name@);
            }
            let ok = hm_try_append(&mut h.headers, &lower, &val);
            if !ok {
                proof {
                    assert(h.order_spec() == old(h).order_spec());
                    assert(h.casing_spec() == old(h).casing_spec());
                }
                return fluxio_code::FLUXIO_ERROR;
            }
            let lower2 = copy_byte_vec(&lower);
            h.orig_casing.append_spelling(lower2, orig);
            h.orig_order.append_entry(lower);
            proof {
                lemma_well_ordered_push(
                    old(h).order_spec(),
                    lower_seq(name@),
                    count_name(old(h).order_spec(), lower_seq(name@)) as usize,
                );
                lemma_count_le_len(old(h).order_spec(), lower_seq(name@));
                assert(final(h).wf()) by {
                    assert(forall|p: int|
                        0 <= p < old(h).order_spec().len() ==> final(h).order_spec()[p] == old(h).order_spec()[p]);
                    assert(forall|p: int|
                        0 <= p < old(h).casing_spec().len() ==> final(h).casing_spec()[p]
                            == old(h).casing_spec()[p]);
                }
                if old(h).consistent() {
                    lemma_add_keeps_consistent(
                        old(h).headers_model(),
                        old(h).casing_spec(),
                        old(h).order_spec(),
                        lower_seq(name@),
                        name@,
                        value@,
                    );
                }
            }
            fluxio_code::FLUXIO_OK
        },
    }
}

/// Sets the header with the provided name to the provided value,
/// overwriting any previous value set for the name; a name that was
/// already present keeps its place in the iteration order.
pub fn fluxio_headers_set(h: &mut fluxio_headers, name: &Vec<u8>, value: &Vec<u8>) -> (r:
    fluxio_code)
    requires
        old(h).wf(),
    ensures
        final(h).wf(),
        r == fluxio_code::FLUXIO_OK || r == fluxio_code::FLUXIO_INVALID_ARG || r
            == fluxio_code::FLUXIO_ERROR,
        (r == fluxio_code::FLUXIO_INVALID_ARG <==> !(valid_header_name(name@)
            && valid_header_value(value@))),
        (valid_header_name(name@) && valid_header_value(value@) && old(h).name_count()
            < hm_room_bound()) ==> r == fluxio_code::FLUXIO_OK,
        r != fluxio_code::FLUXIO_OK ==> (final(h).headers_model() == old(h).headers_model()
            && final(h).casing_spec() == old(h).casing_spec() && final(h).order_spec() == old(h).order_spec()
            && final(h).name_count() == old(h).name_count()),
        r == fluxio_code::FLUXIO_OK ==> final(h).name_count() <= old(h).name_count() + 1,
        r == fluxio_code::FLUXIO_OK ==> final(h).headers_model() == old(h).headers_model().insert(lower_seq(name@), seq![value@]),
        r == fluxio_code::FLUXIO_OK ==> final(h).casing_spec() == casing_without(
            old(h).casing_spec(),
            lower_seq(name@),
        ).push((lower_seq(name@), name@)),
        r == fluxio_code::FLUXIO_OK ==> final(h).order_spec() == if count_name(
            old(h).order_spec(),
            lower_seq(name@),
        ) == 0 {
            old(h).order_spec().push((lower_seq(name@), 0usize))
        } else {
            old(h).order_spec()
        },
{
    match raw_name_value(name, value) {
        Err(code) => code,
        Ok((lower, val, orig)) => {
            proof {
                lemma_lower_valid(name@);
            }
            let ok = hm_try_insert(&mut h.headers, &lower, &val);
            if !ok {
                proof {
                    assert(h.order_spec() == old(h).order_spec());
                    assert(h.casing_spec() == old(h).casing_spec());
                }
                return fluxio_code::FLUXIO_ERROR;
            }
            let lower2 = copy_byte_vec(&lower);
            h.orig_casing.set_spelling(lower2, orig);
            h.orig_order.insert_entry(lower);
            proof {
                if count_name(old(h).order_spec(), lower_seq(name@)) == 0 {
                    lemma_well_ordered_push(old(h).order_spec(), lower_seq(name@), 0usize);
                }
                assert(final(h).wf()) by {
                    assert(forall|p: int|
                        0 <= p < old(h).order_spec().len() ==> final(h).order_spec()[p] == old(h).order_spec()[p]);
                    lemma_casing_without_lower(old(h).casing_spec(), lower_seq(name@));
                }
            }
            fluxio_code::FLUXIO_OK
        },
    }
}

/// Entries surviving `casing_without` keep their normalized names.
proof fn lemma_casing_without_lower(casing: Seq<(Seq<u8>, Seq<u8>)>, name: Seq<u8>)
    requires
        forall|p: int| 0 <= p < casing.len() ==> is_lower_name((#[trigger] casing[p]).0),
    ensures
        forall|p: int|
            0 <= p < casing_without(casing, name).len() ==> is_lower_name(
                (#[trigger] casing_without(casing, name)[p]).0,
            ),
    decreases casing.len(),
{
    reveal(Seq::filter);
    let f = casing_without(casing, name);
    if casing.len() > 0 {
        lemma_casing_without_lower(casing.drop_last(), name);
        let fd = casing_without(casing.drop_last(), name);
        assert forall|p: int| 0 <= p < f.len() implies is_lower_name((#[trigger] f[p]).0) by {
            if casing.last().0 != name {
                assert(f == fd.push(casing.last()));
                if p < f.len() - 1 {
                    assert(f[p] == fd[p]);
                } else {
                    assert(f[p] == casing.last());
                    assert(is_lower_name(casing[casing.len() - 1].0));
                }
            } else {
                assert(f == fd);
            }
        }
    }
}

/// The three value lists agree with the order table's counts.
pub open spec fn tables_consistent(
    hm: Map<Seq<u8>, Seq<Seq<u8>>>,
    casing: Seq<(Seq<u8>, Seq<u8>)>,
    order: Seq<(Seq<u8>, usize)>,
) -> bool {
    forall|name: Seq<u8>|
        #![trigger list_of(hm, name)]
        #![trigger casing_list(casing, name)]
        #![trigger count_name(order, name)]
        list_of(hm, name).len() == count_name(order, name) && casing_list(casing, name).len()
            == count_name(order, name)
}

/// Appending one entry to all three structures keeps them consistent.
pub proof fn lemma_add_keeps_consistent(
    hm: Map<Seq<u8>, Seq<Seq<u8>>>,
    casing: Seq<(Seq<u8>, Seq<u8>)>,
    order: Seq<(Seq<u8>, usize)>,
    lname: Seq<u8>,
    orig: Seq<u8>,
    value: Seq<u8>,
)
    requires
        tables_consistent(hm, casing, order),
    ensures
        tables_consistent(
            hm.insert(lname, list_of(hm, lname).push(value)),
            casing.push((lname, orig)),
            order.push((lname, count_name(order, lname) as usize)),
        ),
{
    let hm2 = hm.insert(lname, list_of(hm, lname).push(value));
    let casing2 = casing.push((lname, orig));
    let order2 = order.push((lname, count_name(order, lname) as usize));
    assert forall|name: Seq<u8>|
        list_of(hm2, name).len() == count_name(order2, name) && casing_list(casing2, name).len()
            == count_name(order2, name) by {
        assert(order2.drop_last() =~= order);
        assert(casing2.drop_last() =~= casing);
        if name == lname {
            assert(list_of(hm2, name) =~= list_of(hm, name).push(value));
        } else {
            assert(list_of(hm2, name) =~= list_of(hm, name));
        }
    }
}

// ===== iteration =====

/// The view of delivered (name, value) pairs.
pub open spec fn pairs_view(s: Seq<(Vec<u8>, Vec<u8>)>) -> Seq<(Seq<u8>, Seq<u8>)> {
    s.map_values(|p: (Vec<u8>, Vec<u8>)| (p.0@, p.1@))
}

/// The per-delivery decisions of the iteration callback, continuing once
/// the list runs out.
pub open spec fn decision_at(decisions: Seq<i32>, k: int) -> i32 {
    if 0 <= k < decisions.len() {
        decisions[k]
    } else {
        FLUXIO_ITER_CONTINUE
    }
}

/// What one order entry delivers: the original spelling when the casing
/// table still has it, the normalized name otherwise, with the value.
pub open spec fn entry_pair(
    entry: (Seq<u8>, usize),
    hm: Map<Seq<u8>, Seq<Seq<u8>>>,
    casing: Seq<(Seq<u8>, Seq<u8>)>,
) -> (Seq<u8>, Seq<u8>) {
    let n = entry.0;
    let idx = entry.1 as int;
    let nm = if idx < casing_list(casing, n).len() {
        casing_list(casing, n)[idx]
    } else {
        n
    };
    let v = if idx < list_of(hm, n).len() {
        list_of(hm, n)[idx]
    } else {
        Seq::empty()
    };
    (nm, v)
}

/// What iterating front to back delivers when nothing stops it: one pair
/// per order entry, reproducing the original casing and insertion order.
pub open spec fn iteration_view(
    order: Seq<(Seq<u8>, usize)>,
    hm: Map<Seq<u8>, Seq<Seq<u8>>>,
    casing: Seq<(Seq<u8>, Seq<u8>)>,
) -> Seq<(Seq<u8>, Seq<u8>)> {
    Seq::new(order.len(), |p: int| entry_pair(order[p], hm, casing))
}

/// Every order entry points at an existing value of its name.
pub open spec fn valid_entries(
    order: Seq<(Seq<u8>, usize)>,
    hm: Map<Seq<u8>, Seq<Seq<u8>>>,
) -> bool {
    forall|p: int|
        0 <= p < order.len() ==> ((#[trigger] order[p]).1 as int) < list_of(
            hm,
            order[p].0,
        ).len()
}

/// The pairs the ordered iteration delivers from one entry onward, with
/// `k` the index of the delivery decision that entry consumes: iteration
/// stops silently at an entry whose value is gone, and stops after a
/// delivery whose decision is not to continue.
pub open spec fn ordered_deliveries_from(
    order: Seq<(Seq<u8>, usize)>,
    hm: Map<Seq<u8>, Seq<Seq<u8>>>,
    casing: Seq<(Seq<u8>, Seq<u8>)>,
    decisions: Seq<i32>,
    k: int,
) -> Seq<(Seq<u8>, Seq<u8>)>
    decreases order.len(),
{
    if order.len() == 0 {
        Seq::empty()
    } else {
        let n = order[0].0;
        let idx = order[0].1 as int;
        if idx >= list_of(hm, n).len() {
            Seq::empty()
        } else {
            let pair = entry_pair(order[0], hm, casing);
            if decision_at(decisions, k) == FLUXIO_ITER_CONTINUE {
                seq![pair] + ordered_deliveries_from(
                    order.drop_first(),
                    hm,
                    casing,
                    decisions,
                    k + 1,
                )
            } else {
                seq![pair]
            }
        }
    }
}

/// The pairs the ordered iteration delivers.
pub open spec fn ordered_deliveries(
    order: Seq<(Seq<u8>, usize)>,
    hm: Map<Seq<u8>, Seq<Seq<u8>>>,
    casing: Seq<(Seq<u8>, Seq<u8>)>,
    decisions: Seq<i32>,
) -> Seq<(Seq<u8>, Seq<u8>)> {
    ordered_deliveries_from(order, hm, casing, decisions, 0)
}

/// Every delivery decision continues.
pub open spec fn all_continue(decisions: Seq<i32>) -> bool {
    forall|t: int| 0 <= t < decisions.len() ==> #[trigger] decisions[t] == FLUXIO_ITER_CONTINUE
}

/// The name shown for a key's `j`-th value: its recorded spelling when
/// the casing table still has one, the normalized key otherwise.
pub open spec fn fallback_name(casing: Seq<(Seq<u8>, Seq<u8>)>, k: Seq<u8>, j: int) -> Seq<
    u8,
> {
    if j < casing_list(casing, k).len() {
        casing_list(casing, k)[j]
    } else {
        k
    }
}

/// A delivered pair that the map and casing table account for.
pub open spec fn fallback_pair_ok(
    pair: (Seq<u8>, Seq<u8>),
    hm: Map<Seq<u8>, Seq<Seq<u8>>>,
    casing: Seq<(Seq<u8>, Seq<u8>)>,
) -> bool {
    exists|k: Seq<u8>, j: int|
        #![auto]
        hm.dom().contains(k) && 0 <= j < list_of(hm, k).len() && pair.1 == list_of(hm, k)[j]
            && pair.0 == fallback_name(casing, k, j)
}

/// The pair appears somewhere among the delivered ones.
pub open spec fn pair_delivered(
    pairs: Seq<(Seq<u8>, Seq<u8>)>,
    name: Seq<u8>,
    value: Seq<u8>,
) -> bool {
    exists|t: int| 0 <= t < pairs.len() && #[trigger] pairs[t] == (name, value)
}

/// Every value of one key appears among the delivered pairs.
pub open spec fn key_covered(
    pairs: Seq<(Seq<u8>, Seq<u8>)>,
    hm: Map<Seq<u8>, Seq<Seq<u8>>>,
    casing: Seq<(Seq<u8>, Seq<u8>)>,
    k: Seq<u8>,
) -> bool {
    forall|j: int|
        0 <= j < list_of(hm, k).len() ==> #[trigger] pair_delivered(
            pairs,
            fallback_name(casing, k, j),
            list_of(hm, k)[j],
        )
}

/// Every value of every present key appears among the delivered pairs.
pub open spec fn fallback_complete(
    pairs: Seq<(Seq<u8>, Seq<u8>)>,
    hm: Map<Seq<u8>, Seq<Seq<u8>>>,
    casing: Seq<(Seq<u8>, Seq<u8>)>,
) -> bool {
    forall|k: Seq<u8>| hm.dom().contains(k) ==> #[trigger] key_covered(pairs, hm, casing, k)
}

/// Every delivered pair is accounted for.  The iteration order of this
/// branch comes from the header map's own key order, which that map
/// leaves unspecified.
pub open spec fn fallback_sound(
    pairs: Seq<(Seq<u8>, Seq<u8>)>,
    hm: Map<Seq<u8>, Seq<Seq<u8>>>,
    casing: Seq<(Seq<u8>, Seq<u8>)>,
) -> bool {
    forall|t: int| 0 <= t < pairs.len() ==> fallback_pair_ok(#[trigger] pairs[t], hm, casing)
}

/// Iterates the headers, delivering each name and value pair in original
/// casing and insertion order; `decisions` plays the iteration callback's
/// returns, one per delivered pair, and a value other than
/// `FLUXIO_ITER_CONTINUE` stops the iteration after that pair.
pub fn fluxio_headers_foreach(h: &fluxio_headers, decisions: &Vec<i32>) -> (r: Vec<
    (Vec<u8>, Vec<u8>),
>)
    requires
        h.wf(),
    ensures
        h.order_spec().len() > 0 ==> pairs_view(r@) == ordered_deliveries(
            h.order_spec(),
            h.headers_model(),
            h.casing_spec(),
            decisions@,
        ),
        h.order_spec().len() == 0 ==> fallback_sound(
            pairs_view(r@),
            h.headers_model(),
            h.casing_spec(),
        ),
        (h.order_spec().len() == 0 && all_continue(decisions@)) ==> fallback_complete(
            pairs_view(r@),
            h.headers_model(),
            h.casing_spec(),
        ),
{
    let total = h.orig_order.len();
    let mut out: Vec<(Vec<u8>, Vec<u8>)> = Vec::new();
    let ghost hmm = h.headers_model();
    let ghost cas = h.casing_spec();
    if total > 0 {
        let ghost ospec = h.order_spec();
        let ghost full = ordered_deliveries(ospec, hmm, cas, decisions@);
        let mut i: usize = 0;
        proof {
            assert(ospec.skip(0) =~= ospec);
            assert(pairs_view(out@) =~= Seq::<(Seq<u8>, Seq<u8>)>::empty());
        }
        while i < total
            invariant
                h.wf(),
                i <= total,
                total == h.order_spec().len(),
                ospec == h.order_spec(),
                hmm == h.headers_model(),
                cas == h.casing_spec(),
                full == ordered_deliveries(ospec, hmm, cas, decisions@),
                full == pairs_view(out@) + ordered_deliveries_from(
                    ospec.skip(i as int),
                    hmm,
                    cas,
                    decisions@,
                    i as int,
                ),
            decreases total - i,
        {
            let ghost rem = ospec.skip(i as int);
            let (nm, idx) = h.orig_order.entry_at(i);
            let ghost nmv = nm@;
            proof {
                assert(rem[0] == ospec[i as int]);
                assert(is_lower_name(ospec[i as int].0));
                assert(lower_seq(nmv) == nmv);
            }
            let vals = hm_get_all(&h.headers, &nm);
            if idx >= vals.len() {
                proof {
                    assert(vals@.map_values(|v: Vec<u8>| v@).len() == list_of(hmm, nmv).len());
                    assert(ordered_deliveries_from(rem, hmm, cas, decisions@, i as int) =~= Seq::<
                        (Seq<u8>, Seq<u8>),
                    >::empty());
                    assert(full =~= pairs_view(out@));
                }
                return out;
            }
            let names = h.orig_casing.get_all_spellings(&nm);
            let name_out = if idx < names.len() {
                copy_byte_vec(&names[idx])
            } else {
                nm
            };
            let val = copy_byte_vec(&vals[idx]);
            let ghost opre = pairs_view(out@);
            out.push((name_out, val));
            proof {
                assert(names@.map_values(|v: Vec<u8>| v@) == casing_list(cas, nmv));
                assert(vals@.map_values(|v: Vec<u8>| v@) == list_of(hmm, nmv));
                assert(pairs_view(out@) =~= opre.push(entry_pair(rem[0], hmm, cas)));
            }
            let d = if i < decisions.len() {
                decisions[i]
            } else {
                FLUXIO_ITER_CONTINUE
            };
            if d != FLUXIO_ITER_CONTINUE {
                proof {
                    assert(decision_at(decisions@, i as int) == d);
                    assert(ordered_deliveries_from(rem, hmm, cas, decisions@, i as int)
                        =~= seq![entry_pair(rem[0], hmm, cas)]);
                    assert(full =~= pairs_view(out@));
                }
                return out;
            }
            proof {
                assert(decision_at(decisions@, i as int) == FLUXIO_ITER_CONTINUE);
                assert(rem.drop_first() =~= ospec.skip(i + 1));
                assert(full =~= pairs_view(out@) + ordered_deliveries_from(
                    ospec.skip(i + 1),
                    hmm,
                    cas,
                    decisions@,
                    i + 1,
                ));
            }
            i = i + 1;
        }
        proof {
            assert(ospec.skip(total as int) =~= Seq::<(Seq<u8>, usize)>::empty());
            assert(full =~= pairs_view(out@));
        }
        out
    } else {
        let keys = hm_keys(&h.headers);
        let mut ki: usize = 0;
        proof {
            assert(pairs_view(out@) =~= Seq::<(Seq<u8>, Seq<u8>)>::empty());
        }
        while ki < keys.len()
            invariant
                h.order_spec().len() == 0,
                hmm == h.headers_model(),
                cas == h.casing_spec(),
                forall|q: int| 0 <= q < keys@.len() ==> hmm.dom().contains(#[trigger] keys@[q]@),
                forall|q: int| 0 <= q < keys@.len() ==> is_lower_name(#[trigger] keys@[q]@),
                forall|k: Seq<u8>|
                    hmm.dom().contains(k) ==> exists|q: int|
                        0 <= q < keys@.len() && #[trigger] keys@[q]@ == k,
                fallback_sound(pairs_view(out@), hmm, cas),
                all_continue(decisions@) ==> forall|q: int|
                    0 <= q < ki ==> key_covered(pairs_view(out@), hmm, cas, (
                    #[trigger] keys@[q])@),
            decreases keys.len() - ki,
        {
            let key = copy_byte_vec(&keys[ki]);
            let ghost kv = key@;
            proof {
                assert(lower_seq(kv) == kv);
            }
            let vals = hm_get_all(&h.headers, &key);
            let names = h.orig_casing.get_all_spellings(&key);
            let mut j: usize = 0;
            while j < vals.len()
                invariant
                    h.order_spec().len() == 0,
                    j <= vals@.len(),
                    hmm == h.headers_model(),
                    cas == h.casing_spec(),
                    hmm.dom().contains(kv),
                    vals@.map_values(|v: Vec<u8>| v@) == list_of(hmm, kv),
                    names@.map_values(|v: Vec<u8>| v@) == casing_list(cas, kv),
                    kv == key@,
                    fallback_sound(pairs_view(out@), hmm, cas),
                    all_continue(decisions@) ==> forall|q: int|
                        0 <= q < ki ==> key_covered(pairs_view(out@), hmm, cas, (
                        #[trigger] keys@[q])@),
                    all_continue(decisions@) ==> forall|jj: int|
                        0 <= jj < j ==> #[trigger] pair_delivered(
                            pairs_view(out@),
                            fallback_name(cas, kv, jj),
                            list_of(hmm, kv)[jj],
                        ),
                decreases vals.len() - j,
            {
                let name_out = if j < names.len() {
                    copy_byte_vec(&names[j])
                } else {
                    copy_byte_vec(&key)
                };
                let val = copy_byte_vec(&vals[j]);
                let ghost opre = pairs_view(out@);
                let ghost pair = (name_out@, val@);
                out.push((name_out, val));
                proof {
                    assert(pairs_view(out@) =~= opre.push(pair));
                    assert(fallback_pair_ok(pair, hmm, cas)) by {
                        assert(hmm.dom().contains(kv) && 0 <= j < list_of(hmm, kv).len()
                            && pair.1 == list_of(hmm, kv)[j as int] && pair.0 == (if (j as int)
                            < casing_list(cas, kv).len() {
                            casing_list(cas, kv)[j as int]
                        } else {
                            kv
                        }));
                    }
                    assert forall|t: int| 0 <= t < pairs_view(out@).len() implies fallback_pair_ok(
                        #[trigger] pairs_view(out@)[t],
                        hmm,
                        cas,
                    ) by {
                        if t < opre.len() {
                            assert(pairs_view(out@)[t] == opre[t]);
                        } else {
                            assert(pairs_view(out@)[t] == pair);
                        }
                    }
                    assert(forall|t: int|
                        0 <= t < opre.len() ==> #[trigger] pairs_view(out@)[t] == opre[t]);
                    if all_continue(decisions@) {
                        assert forall|q: int| 0 <= q < ki implies key_covered(
                            pairs_view(out@),
                            hmm,
                            cas,
                            (#[trigger] keys@[q])@,
                        ) by {
                            lemma_covered_after_push(opre, pairs_view(out@), hmm, cas, keys@[q]@);
                        }
                        assert(pair == (fallback_name(cas, kv, j as int), list_of(hmm, kv)[
                        j as int]));
                        assert(pairs_view(out@)[opre.len() as int] == pair);
                        assert forall|jj: int| 0 <= jj < j + 1 implies #[trigger] pair_delivered(
                            pairs_view(out@),
                            fallback_name(cas, kv, jj),
                            list_of(hmm, kv)[jj],
                        ) by {
                            if jj < j {
                                lemma_delivered_after_extend(
                                    opre,
                                    pairs_view(out@),
                                    fallback_name(cas, kv, jj),
                                    list_of(hmm, kv)[jj],
                                );
                            } else {
                                assert(pairs_view(out@)[opre.len() as int] == (fallback_name(
                                    cas,
                                    kv,
                                    jj,
                                ), list_of(hmm, kv)[jj]));
                            }
                        }
                    }
                }
                let t = out.len() - 1;
                let d = if t < decisions.len() {
                    decisions[t]
                } else {
                    FLUXIO_ITER_CONTINUE
                };
                if d != FLUXIO_ITER_CONTINUE {
                    proof {
                        assert(decision_at(decisions@, t as int) == d);
                        assert(!all_continue(decisions@));
                    }
                    return out;
                }
                j = j + 1;
            }
            proof {
                if all_continue(decisions@) {
                    assert(vals@.map_values(|v: Vec<u8>| v@).len() == list_of(hmm, kv).len());
                    assert(key_covered(pairs_view(out@), hmm, cas, kv)) by {
                        assert forall|jj: int|
                            0 <= jj < list_of(hmm, kv).len() implies #[trigger] pair_delivered(
                            pairs_view(out@),
                            fallback_name(cas, kv, jj),
                            list_of(hmm, kv)[jj],
                        ) by {
                            assert(0 <= jj < vals@.len());
                        }
                    }
                    assert forall|q: int| 0 <= q < ki + 1 implies key_covered(
                        pairs_view(out@),
                        hmm,
                        cas,
                        (#[trigger] keys@[q])@,
                    ) by {
                        if q == ki {
                            assert(keys@[q]@ == kv);
                        }
                    }
                }
            }
            ki = ki + 1;
        }
        proof {
            if all_continue(decisions@) {
                assert forall|k: Seq<u8>| hmm.dom().contains(k) implies #[trigger] key_covered(
                    pairs_view(out@),
                    hmm,
                    cas,
                    k,
                ) by {
                    let q = choose|q: int| 0 <= q < keys@.len() && #[trigger] keys@[q]@ == k;
                    assert(key_covered(pairs_view(out@), hmm, cas, keys@[q]@));
                }
            }
        }
        out
    }
}

/// A delivered pair stays delivered when more pairs are appended.
proof fn lemma_delivered_after_extend(
    pre: Seq<(Seq<u8>, Seq<u8>)>,
    post: Seq<(Seq<u8>, Seq<u8>)>,
    name: Seq<u8>,
    value: Seq<u8>,
)
    requires
        pair_delivered(pre, name, value),
        pre.len() <= post.len(),
        forall|t: int| 0 <= t < pre.len() ==> #[trigger] post[t] == pre[t],
    ensures
        pair_delivered(post, name, value),
{
    let t0 = choose|t: int| 0 <= t < pre.len() && #[trigger] pre[t] == (name, value);
    assert(post[t0] == (name, value));
}

/// Witnesses of coverage survive appending another pair.
proof fn lemma_covered_after_push(
    pre: Seq<(Seq<u8>, Seq<u8>)>,
    post: Seq<(Seq<u8>, Seq<u8>)>,
    hm: Map<Seq<u8>, Seq<Seq<u8>>>,
    casing: Seq<(Seq<u8>, Seq<u8>)>,
    k: Seq<u8>,
)
    requires
        key_covered(pre, hm, casing, k),
        pre.len() <= post.len(),
        forall|t: int| 0 <= t < pre.len() ==> #[trigger] post[t] == pre[t],
    ensures
        key_covered(post, hm, casing, k),
{
    assert forall|j: int| 0 <= j < list_of(hm, k).len() implies #[trigger] pair_delivered(
        post,
        fallback_name(casing, k, j),
        list_of(hm, k)[j],
    ) by {
        lemma_delivered_after_extend(pre, post, fallback_name(casing, k, j), list_of(hm, k)[j]);
    }
}

// ===== laws of iteration =====

/// Earlier occurrences of an entry's name never reach its total count.
pub proof fn lemma_count_take_lt(order: Seq<(Seq<u8>, usize)>, p: int)
    requires
        0 <= p < order.len(),
    ensures
        count_name(order.take(p), order[p].0) < count_name(order, order[p].0),
    decreases order.len(),
{
    if p == order.len() - 1 {
        assert(order.take(p) =~= order.drop_last());
    } else {
        lemma_count_take_lt(order.drop_last(), p);
        assert(order.drop_last().take(p) =~= order.take(p));
        assert(order.drop_last()[p] == order[p]);
    }
}

/// In a consistent collection every order entry points at an existing
/// value and an existing recorded spelling.
pub proof fn lemma_consistent_valid_entries(
    hm: Map<Seq<u8>, Seq<Seq<u8>>>,
    casing: Seq<(Seq<u8>, Seq<u8>)>,
    order: Seq<(Seq<u8>, usize)>,
)
    requires
        well_ordered(order),
        tables_consistent(hm, casing, order),
    ensures
        valid_entries(order, hm),
        forall|p: int|
            0 <= p < order.len() ==> ((#[trigger] order[p]).1 as int) < casing_list(
                casing,
                order[p].0,
            ).len(),
{
    assert forall|p: int| 0 <= p < order.len() implies ((#[trigger] order[p]).1 as int)
        < list_of(hm, order[p].0).len() && ((order[p]).1 as int) < casing_list(
        casing,
        order[p].0,
    ).len() by {
        lemma_count_take_lt(order, p);
    }
}

/// When every entry is valid and every decision continues, the ordered
/// iteration delivers the whole iteration view.
pub proof fn lemma_deliveries_complete(
    order: Seq<(Seq<u8>, usize)>,
    hm: Map<Seq<u8>, Seq<Seq<u8>>>,
    casing: Seq<(Seq<u8>, Seq<u8>)>,
    decisions: Seq<i32>,
    k: int,
)
    requires
        valid_entries(order, hm),
        forall|t: int| 0 <= t < decisions.len() ==> #[trigger] decisions[t]
            == FLUXIO_ITER_CONTINUE,
    ensures
        ordered_deliveries_from(order, hm, casing, decisions, k) == iteration_view(
            order,
            hm,
            casing,
        ),
    decreases order.len(),
{
    if order.len() == 0 {
        assert(iteration_view(order, hm, casing) =~= Seq::<(Seq<u8>, Seq<u8>)>::empty());
    } else {
        assert(valid_entries(order.drop_first(), hm)) by {
            assert(forall|p: int|
                0 <= p < order.drop_first().len() ==> #[trigger] order.drop_first()[p] == order[
                    p + 1
                ]);
        }
        lemma_deliveries_complete(order.drop_first(), hm, casing, decisions, k + 1);
        assert(iteration_view(order, hm, casing) =~= seq![entry_pair(order[0], hm, casing)]
            + iteration_view(order.drop_first(), hm, casing));
    }
}

/// How the casing side table changes under a push, per name.
proof fn lemma_casing_list_push(
    casing: Seq<(Seq<u8>, Seq<u8>)>,
    lname: Seq<u8>,
    orig: Seq<u8>,
    n: Seq<u8>,
)
    ensures
        n == lname ==> casing_list(casing.push((lname, orig)), n) == casing_list(
            casing,
            n,
        ).push(orig),
        n != lname ==> casing_list(casing.push((lname, orig)), n) == casing_list(casing, n),
{
    assert(casing.push((lname, orig)).drop_last() =~= casing);
}

/// The law of header appends: on a consistent collection, adding a header
/// extends the iteration view by exactly one pair holding the original
/// spelling and the value, and leaves every earlier pair as it was.
pub proof fn lemma_iteration_after_append(
    hm: Map<Seq<u8>, Seq<Seq<u8>>>,
    casing: Seq<(Seq<u8>, Seq<u8>)>,
    order: Seq<(Seq<u8>, usize)>,
    lname: Seq<u8>,
    orig: Seq<u8>,
    value: Seq<u8>,
    c: usize,
)
    requires
        well_ordered(order),
        tables_consistent(hm, casing, order),
        c == count_name(order, lname),
    ensures
        iteration_view(
            order.push((lname, c)),
            hm.insert(lname, list_of(hm, lname).push(value)),
            casing.push((lname, orig)),
        ) == iteration_view(order, hm, casing).push((orig, value)),
{
    let order2 = order.push((lname, c));
    let hm2 = hm.insert(lname, list_of(hm, lname).push(value));
    let casing2 = casing.push((lname, orig));
    assert forall|p: int| 0 <= p < order2.len() implies entry_pair(order2[p], hm2, casing2)
        == iteration_view(order, hm, casing).push((orig, value))[p] by {
        let n = order2[p].0;
        lemma_casing_list_push(casing, lname, orig, n);
        assert(list_of(hm2, n) == if n == lname {
            list_of(hm, n).push(value)
        } else {
            list_of(hm, n)
        });
        if p < order.len() {
            assert(order2[p] == order[p]);
            lemma_consistent_valid_entries(hm, casing, order);
            assert((order[p].1 as int) < list_of(hm, n).len());
            assert((order[p].1 as int) < casing_list(casing, n).len());
        } else {
            assert(order2[p] == (lname, c));
            assert(casing_list(casing, lname).len() == c);
            assert(list_of(hm, lname).len() == c);
        }
    }
    assert(iteration_view(order2, hm2, casing2) =~= iteration_view(order, hm, casing).push(
        (orig, value),
    ));
}

/// How the casing lists change when one name's entries are removed.
proof fn lemma_casing_without_list(casing: Seq<(Seq<u8>, Seq<u8>)>, lname: Seq<u8>, n: Seq<u8>)
    ensures
        n == lname ==> casing_list(casing_without(casing, lname), n) == Seq::<Seq<u8>>::empty(),
        n != lname ==> casing_list(casing_without(casing, lname), n) == casing_list(casing, n),
    decreases casing.len(),
{
    reveal(Seq::filter);
    if casing.len() > 0 {
        lemma_casing_without_list(casing.drop_last(), lname, n);
        let fd = casing_without(casing.drop_last(), lname);
        if casing.last().0 != lname {
            assert(casing_without(casing, lname) == fd.push(casing.last()));
            assert(casing_without(casing, lname).drop_last() =~= fd);
        } else {
            assert(casing_without(casing, lname) == fd);
        }
    }
}

/// The law of header sets: on a consistent collection in which the name
/// has at most one entry, setting a header leaves every other pair of the
/// iteration view as it was; the name's pair becomes the new spelling and
/// value, in place when the name was already present, at the end when it
/// was fresh.
pub proof fn lemma_iteration_after_set(
    hm: Map<Seq<u8>, Seq<Seq<u8>>>,
    casing: Seq<(Seq<u8>, Seq<u8>)>,
    order: Seq<(Seq<u8>, usize)>,
    lname: Seq<u8>,
    orig: Seq<u8>,
    value: Seq<u8>,
)
    requires
        well_ordered(order),
        tables_consistent(hm, casing, order),
        count_name(order, lname) <= 1,
    ensures
        count_name(order, lname) == 0 ==> iteration_view(
            order.push((lname, 0usize)),
            hm.insert(lname, seq![value]),
            casing_without(casing, lname).push((lname, orig)),
        ) == iteration_view(order, hm, casing).push((orig, value)),
        count_name(order, lname) == 1 ==> forall|p: int|
            0 <= p < order.len() ==> #[trigger] iteration_view(
                order,
                hm.insert(lname, seq![value]),
                casing_without(casing, lname).push((lname, orig)),
            )[p] == (if order[p].0 == lname {
                (orig, value)
            } else {
                iteration_view(order, hm, casing)[p]
            }),
{
    let hm2 = hm.insert(lname, seq![value]);
    let casing2 = casing_without(casing, lname).push((lname, orig));
    assert(casing2.drop_last() =~= casing_without(casing, lname));
    lemma_consistent_valid_entries(hm, casing, order);
    if count_name(order, lname) == 0 {
        let order2 = order.push((lname, 0usize));
        assert forall|p: int| 0 <= p < order2.len() implies entry_pair(order2[p], hm2, casing2)
            == iteration_view(order, hm, casing).push((orig, value))[p] by {
            let n = order2[p].0;
            lemma_casing_without_list(casing, lname, n);
            if p < order.len() {
                assert(order2[p] == order[p]);
                assert(n != lname);
                assert(casing_list(casing2, n) == casing_list(casing, n));
                assert(list_of(hm2, n) == list_of(hm, n));
            } else {
                assert(order2[p] == (lname, 0usize));
                assert(casing_list(casing2, lname) =~= seq![orig]);
                assert(list_of(hm2, lname) =~= seq![value]);
            }
        }
        assert(iteration_view(order2, hm2, casing2) =~= iteration_view(order, hm, casing).push(
            (orig, value),
        ));
    } else {
        assert forall|p: int| 0 <= p < order.len() implies #[trigger] iteration_view(
            order,
            hm2,
            casing2,
        )[p] == (if order[p].0 == lname {
            (orig, value)
        } else {
            iteration_view(order, hm, casing)[p]
        }) by {
            let n = order[p].0;
            lemma_casing_without_list(casing, lname, n);
            if n == lname {
                lemma_count_take_lt(order, p);
                assert(order[p].1 == 0);
                assert(casing_list(casing2, lname) =~= seq![orig]);
                assert(list_of(hm2, lname) =~= seq![value]);
            } else {
                assert(casing_list(casing2, n) == casing_list(casing, n));
                assert(list_of(hm2, n) == list_of(hm, n));
            }
        }
    }
}

/// The law of full iteration: on a well-formed, consistent collection —
/// the shape every sequence of adds and sets from an empty collection
/// keeps — an iteration whose callback always continues delivers exactly
/// the iteration view: one pair per entry, in insertion order, under the
/// original spelling.
pub proof fn lemma_full_iteration(
    hm: Map<Seq<u8>, Seq<Seq<u8>>>,
    casing: Seq<(Seq<u8>, Seq<u8>)>,
    order: Seq<(Seq<u8>, usize)>,
    decisions: Seq<i32>,
)
    requires
        well_ordered(order),
        tables_consistent(hm, casing, order),
        forall|t: int| 0 <= t < decisions.len() ==> #[trigger] decisions[t]
            == FLUXIO_ITER_CONTINUE,
    ensures
        ordered_deliveries(order, hm, casing, decisions) == iteration_view(order, hm, casing),
{
    lemma_consistent_valid_entries(hm, casing, order);
    lemma_deliveries_complete(order, hm, casing, decisions, 0);
}

} // verus!
