//! The persistent subscription store: a durable mapping from feed URL to
//! encoded subscription record, backed by a `sled` tree. The tree's
//! contents are modelled as a map from key bytes to value bytes; every
//! operation's contract is stated over that model.

use vstd::prelude::*;

use crate::codec::bounded;
use crate::codec::decode;
use crate::codec::encode;
use crate::codec::spec_encode;
use crate::subscription::Subscription;
use crate::subscription::SubscriptionView;

verus! {

#[verifier::external_type_specification]
#[verifier::external_body]
pub struct ExTree(sled::Tree);

/// The key-to-bytes mapping a tree holds.
pub uninterp spec fn tree_model(t: sled::Tree) -> Map<Seq<u8>, Seq<u8>>;

/// A store failure: an I/O error reported by the backing tree, or a stored
/// record that does not decode.
#[derive(Debug)]
pub enum StoreError {
    Io(String),
    Corrupt,
}

/// The key a URL is stored under: its UTF-8 bytes.
pub open spec fn key_of(url: Seq<char>) -> Seq<u8> {
    vstd::utf8::encode_utf8(url)
}

/// Relies on `sled::Tree::get`: returns the value stored at the key, or the
/// tree's I/O error.
#[verifier::external_body]
fn tree_get(t: &sled::Tree, key: &Vec<u8>) -> (r: Result<Option<Vec<u8>>, String>)
    ensures
        r matches Ok(Some(v)) ==> tree_model(*t).contains_key(key@) && tree_model(*t)[key@] == v@,
        r matches Ok(None) ==> !tree_model(*t).contains_key(key@),
{
    match t.get(key) {
        Ok(Some(iv)) => Ok(Some(iv.as_ref().to_vec())),
        Ok(None) => Ok(None),
        Err(e) => Err(e.to_string()),
    }
}

/// Relies on `sled::Tree::insert` (an atomic per-key replace) and
/// `sled::Tree::flush` (write-through durability): on success the key holds
/// the value; on failure the key was either replaced or left alone, never
/// half-written.
#[verifier::external_body]
fn tree_insert(t: &mut sled::Tree, key: &Vec<u8>, val: Vec<u8>) -> (r: Result<(), String>)
    ensures
        r is Ok ==> tree_model(*final(t)) == tree_model(*old(t)).insert(key@, val@),
        r is Err ==> tree_model(*final(t)) == tree_model(*old(t)) || tree_model(*final(t)) == tree_model(
            *old(t),
        ).insert(key@, val@),
{
    match t.insert(key.as_slice(), val) {
        Ok(_) => t.flush().map(|_| ()).map_err(|e| e.to_string()),
        Err(e) => Err(e.to_string()),
    }
}

/// Relies on `sled::Tree::remove` (an atomic per-key delete) and
/// `sled::Tree::flush`.
#[verifier::external_body]
fn tree_remove(t: &mut sled::Tree, key: &Vec<u8>) -> (r: Result<(), String>)
    ensures
        r is Ok ==> tree_model(*final(t)) == tree_model(*old(t)).remove(key@),
        r is Err ==> tree_model(*final(t)) == tree_model(*old(t)) || tree_model(*final(t)) == tree_model(
            *old(t),
        ).remove(key@),
{
    match t.remove(key.as_slice()) {
        Ok(_) => t.flush().map(|_| ()).map_err(|e| e.to_string()),
        Err(e) => Err(e.to_string()),
    }
}

/// Relies on `sled::Tree::iter`: a snapshot walk that yields each stored
/// key exactly once with its value.
#[verifier::external_body]
fn tree_entries(t: &sled::Tree) -> (r: Result<Vec<(Vec<u8>, Vec<u8>)>, String>)
    ensures
        r matches Ok(v) ==> {
            &&& forall|i: int|
                0 <= i < v@.len() ==> tree_model(*t).contains_key(#[trigger] v@[i].0@)
                    && tree_model(*t)[v@[i].0@] == v@[i].1@
            &&& forall|i: int, j: int| 0 <= i < j < v@.len() ==> v@[i].0@ != v@[j].0@
            &&& forall|k: Seq<u8>|
                tree_model(*t).contains_key(k) ==> exists|i: int|
                    0 <= i < v@.len() && #[trigger] v@[i].0@ == k
        },
{
    let mut out = Vec::new();
    for kv in t.iter() {
        match kv {
            Ok((k, v)) => out.push((k.as_ref().to_vec(), v.as_ref().to_vec())),
            Err(e) => return Err(e.to_string()),
        }
    }
    Ok(out)
}

/// Relies on `String::from_utf8`: succeeds exactly on valid UTF-8, and
/// returns the characters those bytes encode.
#[verifier::external_body]
fn string_from_utf8(v: Vec<u8>) -> (r: Option<String>)
    ensures
        r matches Some(s) ==> v@ == vstd::utf8::encode_utf8(s@),
        vstd::utf8::valid_utf8(v@) ==> r is Some,
{
    match String::from_utf8(v) {
        Ok(s) => Some(s),
        Err(_) => None,
    }
}

/// The subscription store, owning its backing tree.
pub struct Store {
    tree: sled::Tree,
}

impl View for Store {
    type V = Map<Seq<u8>, Seq<u8>>;

    closed spec fn view(&self) -> Map<Seq<u8>, Seq<u8>> {
        tree_model(self.tree)
    }
}

impl Store {
    /// Wraps an already-opened tree.
    pub fn new(tree: sled::Tree) -> (s: Store)
        ensures
            s@ == tree_model(tree),
    {
        Store { tree }
    }

    /// Reads and decodes the record stored for a URL. `Ok(None)` exactly
    /// when the store holds no record for it; `Err(Corrupt)` only when the
    /// stored bytes are no record's encoding.
    pub fn get(&self, url: &str) -> (r: Result<Option<Subscription>, StoreError>)
        ensures
            r matches Ok(Some(s)) ==> self@.contains_key(key_of(url@)) && self@[key_of(url@)]
                == spec_encode(s@) && bounded(s@),
            r matches Ok(None) ==> !self@.contains_key(key_of(url@)),
            r matches Err(e) && e is Corrupt ==> self@.contains_key(key_of(url@))
                && forall|sv: SubscriptionView|
                bounded(sv) ==> self@[key_of(url@)] != #[trigger] spec_encode(sv),
    {
        let key = url.as_bytes_vec();
        match tree_get(&self.tree, &key) {
            Ok(Some(bytes)) => match decode(&bytes) {
                Some(s) => Ok(Some(s)),
                None => Err(StoreError::Corrupt),
            },
            Ok(None) => Ok(None),
            Err(m) => Err(StoreError::Io(m)),
        }
    }

    /// Encodes and durably writes the record for a URL, replacing whatever
    /// the store held for it; on failure the store is unchanged or holds
    /// the full new record, never a partial write.
    pub fn put(&mut self, url: &str, sub: &Subscription) -> (r: Result<(), StoreError>)
        ensures
            r is Ok ==> final(self)@ == old(self)@.insert(key_of(url@), spec_encode(sub@)) && bounded(
                sub@,
            ),
            r is Err ==> final(self)@ == old(self)@ || final(self)@ == old(self)@.insert(
                key_of(url@),
                spec_encode(sub@),
            ),
    {
        let key = url.as_bytes_vec();
        let bytes = encode(sub);
        match tree_insert(&mut self.tree, &key, bytes) {
            Ok(()) => Ok(()),
            Err(m) => Err(StoreError::Io(m)),
        }
    }

    /// Durably deletes the record for a URL; on failure the store is
    /// unchanged or the record is gone.
    pub fn remove(&mut self, url: &str) -> (r: Result<(), StoreError>)
        ensures
            r is Ok ==> final(self)@ == old(self)@.remove(key_of(url@)),
            r is Err ==> final(self)@ == old(self)@ || final(self)@ == old(self)@.remove(key_of(url@)),
    {
        let key = url.as_bytes_vec();
        match tree_remove(&mut self.tree, &key) {
            Ok(()) => Ok(()),
            Err(m) => Err(StoreError::Io(m)),
        }
    }

    /// A snapshot of every record whose key is a URL and whose bytes decode:
    /// each listed pair is stored, no URL is listed twice, and every stored
    /// record of that shape is listed. Undecodable or non-textual entries
    /// are skipped, as one bad record must not stop a sweep.
    #[verifier::rlimit(60)]
    pub fn entries(&self) -> (r: Result<Vec<(String, Subscription)>, StoreError>)
        ensures
            r matches Ok(v) ==> {
                &&& forall|i: int|
                    0 <= i < v@.len() ==> self@.contains_key(key_of(#[trigger] v@[i].0@))
                        && self@[key_of(v@[i].0@)] == spec_encode(v@[i].1@) && bounded(v@[i].1@)
                &&& forall|i: int, j: int|
                    0 <= i < j < v@.len() ==> key_of(v@[i].0@) != key_of(v@[j].0@)
                &&& forall|u: Seq<char>, sv: SubscriptionView|
                    self@.contains_key(key_of(u)) && self@[key_of(u)] == spec_encode(sv) && bounded(
                        sv,
                    ) ==> listed(v@, key_of(u))
            },
    {
        let raw = match tree_entries(&self.tree) {
            Ok(raw) => raw,
            Err(m) => {
                return Err(StoreError::Io(m));
            },
        };
        let mut out: Vec<(String, Subscription)> = Vec::new();
        let mut i: usize = 0;
        while i < raw.len()
            invariant
                0 <= i <= raw@.len(),
                forall|t: int|
                    0 <= t < raw@.len() ==> self@.contains_key(#[trigger] raw@[t].0@)
                        && self@[raw@[t].0@] == raw@[t].1@,
                forall|t: int, u: int| 0 <= t < u < raw@.len() ==> raw@[t].0@ != raw@[u].0@,
                forall|k: Seq<u8>|
                    self@.contains_key(k) ==> exists|t: int|
                        0 <= t < raw@.len() && #[trigger] raw@[t].0@ == k,
                forall|t: int|
                    0 <= t < out@.len() ==> self@.contains_key(key_of(#[trigger] out@[t].0@))
                        && self@[key_of(out@[t].0@)] == spec_encode(out@[t].1@) && bounded(
                        out@[t].1@,
                    ),
                forall|t: int|
                    0 <= t < out@.len() ==> exists|u: int|
                        0 <= u < i && key_of(#[trigger] out@[t].0@) == raw@[u].0@,
                forall|t: int, u: int| 0 <= t < u < out@.len() ==> key_of(out@[t].0@) != key_of(
                    out@[u].0@,
                ),
                forall|t: int| 0 <= t < i ==> entry_done(raw@, out@, t),
            decreases raw@.len() - i,
        {
            let (kb, vb) = (clone_bytes(&raw[i].0), clone_bytes(&raw[i].1));
            let ghost rk = raw@[i as int].0@;
            let ghost rv = raw@[i as int].1@;
            match string_from_utf8(kb) {
                Some(url) => match decode(&vb) {
                    Some(sub) => {
                        let ghost prev = out@;
                        out.push((url, sub));
                        proof {
                            assert(out@ =~= prev.push(out@.last()));
                            assert(key_of(out@[out@.len() - 1].0@) == rk);
                            assert(listed(out@, rk));
                            assert(entry_done(raw@, out@, i as int));
                            assert forall|t: int| 0 <= t < i implies entry_done(
                                raw@,
                                out@,
                                t,
                            ) by {
                                lemma_done_push(raw@, prev, out@.last(), t);
                            }
                        }
                    },
                    None => {
                        proof {
                            assert(entry_done(raw@, out@, i as int));
                        }
                    },
                },
                None => {
                    proof {
                        assert(!vstd::utf8::valid_utf8(rk));
                        assert(entry_done(raw@, out@, i as int));
                    }
                },
            }
            i = i + 1;
        }
        proof {
            assert forall|u: Seq<char>, sv: SubscriptionView|
                self@.contains_key(key_of(u)) && self@[key_of(u)] == spec_encode(sv) && bounded(
                    sv,
                ) implies listed(out@, key_of(u)) by {
                let k = key_of(u);
                let t = choose|t: int| 0 <= t < raw@.len() && #[trigger] raw@[t].0@ == k;
                vstd::utf8::encode_utf8_valid_utf8(u);
                assert(entry_done(raw@, out@, t));
                assert(raw@[t].1@ == spec_encode(sv));
            }
        }
        Ok(out)
    }
}

/// A record under this key stands somewhere in the listing.
pub open spec fn listed(out: Seq<(String, Subscription)>, k: Seq<u8>) -> bool {
    exists|u: int| 0 <= u < out.len() && key_of(#[trigger] out[u].0@) == k
}

/// The walk has dealt with the raw entry at `t`: if its bytes decode and
/// its key is textual, it stands in the listing.
pub open spec fn entry_done(
    raw: Seq<(Vec<u8>, Vec<u8>)>,
    out: Seq<(String, Subscription)>,
    t: int,
) -> bool {
    forall|sv: SubscriptionView|
        bounded(sv) && raw[t].1@ == #[trigger] spec_encode(sv) && vstd::utf8::valid_utf8(
            raw[t].0@,
        ) ==> listed(out, raw[t].0@)
}

/// A longer listing keeps every key a shorter one had.
proof fn lemma_done_push(
    raw: Seq<(Vec<u8>, Vec<u8>)>,
    out: Seq<(String, Subscription)>,
    p: (String, Subscription),
    t: int,
)
    requires
        entry_done(raw, out, t),
    ensures
        entry_done(raw, out.push(p), t),
{
    assert forall|sv: SubscriptionView|
        bounded(sv) && raw[t].1@ == #[trigger] spec_encode(sv) && vstd::utf8::valid_utf8(
            raw[t].0@,
        ) implies listed(out.push(p), raw[t].0@) by {
        let u = choose|u: int| 0 <= u < out.len() && key_of(#[trigger] out[u].0@) == raw[t].0@;
        assert(key_of(out.push(p)[u].0@) == raw[t].0@);
    }
}


/// A stored entry a sweep must skip: its key is not a URL's UTF-8 text, or
/// its bytes are no record's encoding.
pub open spec fn spec_skipped(m: Map<Seq<u8>, Seq<u8>>, k: Seq<u8>) -> bool {
    m.contains_key(k) && (!vstd::utf8::valid_utf8(k) || forall|sv: SubscriptionView|
        bounded(sv) ==> m[k] != #[trigger] spec_encode(sv))
}

/// Some reported key equals this one.
pub open spec fn key_listed(out: Seq<Vec<u8>>, k: Seq<u8>) -> bool {
    exists|u: int| 0 <= u < out.len() && #[trigger] out[u]@ == k
}

/// The raw entry at `t` cannot be read back as a subscription.
pub open spec fn raw_bad(raw: Seq<(Vec<u8>, Vec<u8>)>, t: int) -> bool {
    !vstd::utf8::valid_utf8(raw[t].0@) || forall|sv: SubscriptionView|
        bounded(sv) ==> raw[t].1@ != #[trigger] spec_encode(sv)
}

/// A longer report keeps every key a shorter one had.
proof fn lemma_key_listed_push(out: Seq<Vec<u8>>, p: Vec<u8>, k: Seq<u8>)
    requires
        key_listed(out, k),
    ensures
        key_listed(out.push(p), k),
{
    let u = choose|u: int| 0 <= u < out.len() && #[trigger] out[u]@ == k;
    assert(out.push(p)[u]@ == k);
}

impl Store {
    /// The keys a sweep skips: exactly those stored under a non-textual key
    /// or with bytes that decode to no record. A poll cycle reports these
    /// instead of failing on them.
    #[verifier::rlimit(60)]
    pub fn skipped_keys(&self) -> (r: Result<Vec<Vec<u8>>, StoreError>)
        ensures
            r matches Ok(v) ==> {
                &&& forall|i: int| 0 <= i < v@.len() ==> spec_skipped(self@, #[trigger] v@[i]@)
                &&& forall|k: Seq<u8>| spec_skipped(self@, k) ==> key_listed(v@, k)
            },
    {
        let raw = match tree_entries(&self.tree) {
            Ok(raw) => raw,
            Err(m) => {
                return Err(StoreError::Io(m));
            },
        };
        let mut out: Vec<Vec<u8>> = Vec::new();
        let mut i: usize = 0;
        while i < raw.len()
            invariant
                0 <= i <= raw@.len(),
                forall|t: int|
                    0 <= t < raw@.len() ==> self@.contains_key(#[trigger] raw@[t].0@)
                        && self@[raw@[t].0@] == raw@[t].1@,
                forall|k: Seq<u8>|
                    self@.contains_key(k) ==> exists|t: int|
                        0 <= t < raw@.len() && #[trigger] raw@[t].0@ == k,
                forall|t: int| 0 <= t < out@.len() ==> spec_skipped(self@, #[trigger] out@[t]@),
                forall|t: int|
                    0 <= t < i && raw_bad(raw@, t) ==> key_listed(out@, raw@[t].0@),
            decreases raw@.len() - i,
        {
            let (kb, vb) = (clone_bytes(&raw[i].0), clone_bytes(&raw[i].1));
            let ghost rk = raw@[i as int].0@;
            let mut bad = false;
            match string_from_utf8(clone_bytes(&kb)) {
                Some(url) => {
                    match decode(&vb) {
                        Some(sub) => {
                            proof {
                                assert(bounded(sub@) && raw@[i as int].1@ == spec_encode(sub@));
                                vstd::utf8::encode_utf8_valid_utf8(url@);
                                assert(!raw_bad(raw@, i as int));
                            }
                        },
                        None => {
                            bad = true;
                        },
                    }
                },
                None => {
                    bad = true;
                },
            }
            if bad {
                let ghost prev = out@;
                out.push(kb);
                proof {
                    assert(out@ =~= prev.push(out@.last()));
                    assert(out@[out@.len() - 1]@ == rk);
                    assert(spec_skipped(self@, rk));
                    assert(key_listed(out@, rk));
                    assert forall|t: int|
                        0 <= t < i && raw_bad(raw@, t) implies key_listed(
                        out@,
                        raw@[t].0@,
                    ) by {
                        lemma_key_listed_push(prev, out@.last(), raw@[t].0@);
                    }
                }
            }
            i = i + 1;
        }
        proof {
            assert forall|k: Seq<u8>| spec_skipped(self@, k) implies key_listed(out@, k) by {
                let t = choose|t: int| 0 <= t < raw@.len() && #[trigger] raw@[t].0@ == k;
                assert(self@[raw@[t].0@] == raw@[t].1@);
                assert(raw_bad(raw@, t));
            }
        }
        Ok(out)
    }
}

/// Copies a byte vector.
fn clone_bytes(v: &Vec<u8>) -> (r: Vec<u8>)
    ensures
        r@ == v@,
{
    let mut out: Vec<u8> = Vec::new();
    let mut i: usize = 0;
    while i < v.len()
        invariant
            0 <= i <= v@.len(),
            out@ == v@.subrange(0, i as int),
        decreases v@.len() - i,
    {
        out.push(v[i]);
        proof {
            assert(v@.subrange(0, i + 1) =~= v@.subrange(0, i as int).push(v@[i as int]));
        }
        i = i + 1;
    }
    proof {
        assert(v@.subrange(0, v@.len() as int) =~= v@);
    }
    out
}

} // verus!
