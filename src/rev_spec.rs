use vstd::prelude::*;

use crate::hash::ObjectId;
use crate::reference::{direct_id, Reference};
use smallvec::SmallVec;

verus! {

/// The (candidate, peeled object) pairs of one peeling, in a `SmallVec`
/// that holds one pair inline.
#[verifier::external_body]
pub struct Replacements {
    pairs: SmallVec<[(ObjectId, ObjectId); 1]>,
}

/// The pairs that a vector of peeling replacements holds, in order.
pub uninterp spec fn replacements_of(v: Replacements) -> Seq<(ObjectId, ObjectId)>;

/// Relies on `SmallVec::new`: an empty vector.
#[verifier::external_body]
fn replacements_new() -> (r: Replacements)
    ensures
        replacements_of(r) == Seq::<(ObjectId, ObjectId)>::empty(),
{
    Replacements { pairs: SmallVec::new() }
}

/// Relies on `SmallVec::push`: the pair is appended. It panics only when the
/// grown capacity overflows, at lengths far beyond what memory can hold.
#[verifier::external_body]
fn replacements_push(v: &mut Replacements, pair: (ObjectId, ObjectId))
    requires
        replacements_of(*old(v)).len() < usize::MAX,
    ensures
        replacements_of(*final(v)) == replacements_of(*old(v)).push(pair),
{
    v.pairs.push(pair)
}

/// Relies on `SmallVec::len`: the number of pairs held.
#[verifier::external_body]
fn replacements_len(v: &Replacements) -> (r: usize)
    ensures
        r == replacements_of(*v).len(),
{
    v.pairs.len()
}

/// Relies on indexing a `SmallVec`: the pair at `k`.
#[verifier::external_body]
fn replacements_get(v: &Replacements, k: usize) -> (r: (ObjectId, ObjectId))
    requires
        k < replacements_of(*v).len(),
    ensures
        r == replacements_of(*v)[k as int],
{
    v.pairs[k]
}

/// The kind of an object.
#[derive(Clone, Copy, Debug, PartialEq, Eq, Structural)]
pub enum ObjectKind {
    Tree,
    Blob,
    Commit,
    Tag,
}

/// What kind of object an ambiguous name is expected to stand for.
#[derive(Clone, Copy, Debug, PartialEq, Eq, Structural)]
pub enum ObjectKindHint {
    /// A commit, or an object that peels to one.
    Committish,
    /// A tree, or an object that peels to one.
    Treeish,
    Commit,
    Tree,
    Blob,
}

/// How a name that is both a reference and an object name prefix is read.
#[derive(Clone, Copy, Debug, PartialEq, Eq, Structural)]
pub enum RefsHint {
    /// The object where the name has all 40 hexadecimal digits, else the
    /// reference.
    PreferObjectOnFullLengthHexShaUseRefOtherwise,
    PreferObject,
    PreferRef,
    /// Report the name as ambiguous.
    Fail,
}

/// How names are resolved.
#[derive(Clone, Copy, Debug, PartialEq, Eq, Structural)]
pub struct Options {
    pub refs_hint: RefsHint,
    pub object_kind_hint: Option<ObjectKindHint>,
}

/// A prefix of an object name: the leading `hex_len` hexadecimal digits of
/// `id`.
#[derive(Clone, Copy, Debug, PartialEq, Eq, Structural)]
pub struct Prefix {
    pub id: ObjectId,
    pub hex_len: usize,
}

/// The hexadecimal digits of a whole object name.
pub const FULL_HEX_LEN: usize = 40;

/// Why a part of a revision specification could not be resolved.
#[derive(Debug, PartialEq, Eq)]
pub enum Error {
    /// A reference could not be read.
    FindReference { name: String },
    /// An object could not be read.
    FindObject { oid: ObjectId },
    /// No object name starts with the prefix.
    PrefixNotFound { prefix: Prefix },
    /// The name is a reference as well as an object name prefix.
    AmbiguousRefAndObject { prefix: Prefix, reference: Reference },
    /// The prefix starts several object names.
    Ambiguous { prefix: Prefix, candidates: Vec<ObjectId> },
    /// An object is not of the kind that was asked for.
    ObjectKind { actual: ObjectKind, expected: ObjectKind, oid: ObjectId },
    /// An object cannot be peeled to the kind that was asked for.
    Peel { oid: ObjectId, expected: ObjectKind },
}

/// Checks that the object `oid`, of kind `actual`, is of kind `expected`.
pub fn require_object_kind(oid: ObjectId, actual: ObjectKind, expected: ObjectKind) -> (r: Result<(), Error>)
    ensures
        actual == expected ==> r == Ok::<(), Error>(()),
        actual != expected ==> r == Err::<(), Error>(Error::ObjectKind { actual, expected, oid }),
{
    if actual == expected {
        Ok(())
    } else {
        Err(Error::ObjectKind { actual, expected, oid })
    }
}

/// The kind that a hint asks for, and whether an object may be peeled to
/// reach it rather than be of that kind itself.
pub open spec fn hint_spec(hint: ObjectKindHint) -> (ObjectKind, bool) {
    match hint {
        ObjectKindHint::Committish => (ObjectKind::Commit, true),
        ObjectKindHint::Treeish => (ObjectKind::Tree, true),
        ObjectKindHint::Commit => (ObjectKind::Commit, false),
        ObjectKindHint::Tree => (ObjectKind::Tree, false),
        ObjectKindHint::Blob => (ObjectKind::Blob, false),
    }
}

impl ObjectKindHint {
    /// The kind that this hint asks for, and whether candidates are peeled
    /// to it or must be of it.
    pub fn expected(&self) -> (r: (ObjectKind, bool))
        ensures
            r == hint_spec(*self),
    {
        match self {
            ObjectKindHint::Committish => (ObjectKind::Commit, true),
            ObjectKindHint::Treeish => (ObjectKind::Tree, true),
            ObjectKindHint::Commit => (ObjectKind::Commit, false),
            ObjectKindHint::Tree => (ObjectKind::Tree, false),
            ObjectKindHint::Blob => (ObjectKind::Blob, false),
        }
    }
}

/// The errors among the first `n` outcomes, in order.
pub open spec fn failures_upto(f: Seq<Option<Error>>, n: int) -> Seq<Error>
    decreases n,
{
    if n <= 0 {
        Seq::empty()
    } else {
        match f[n - 1] {
            Some(e) => failures_upto(f, n - 1).push(e),
            None => failures_upto(f, n - 1),
        }
    }
}

/// The candidates among the first `n` whose outcome is no error, in order.
pub open spec fn survivors_upto(v: Seq<ObjectId>, f: Seq<Option<Error>>, n: int) -> Seq<ObjectId>
    decreases n,
{
    if n <= 0 {
        Seq::empty()
    } else if f[n - 1] is None {
        survivors_upto(v, f, n - 1).push(v[n - 1])
    } else {
        survivors_upto(v, f, n - 1)
    }
}

/// The errors among the first `n` peeling outcomes, in order.
pub open spec fn peel_errors_upto(p: Seq<Result<ObjectId, Error>>, n: int) -> Seq<Error>
    decreases n,
{
    if n <= 0 {
        Seq::empty()
    } else {
        match p[n - 1] {
            Err(e) => peel_errors_upto(p, n - 1).push(e),
            Ok(_) => peel_errors_upto(p, n - 1),
        }
    }
}

/// The candidates among the first `n` that could be peeled, each with the
/// object it peeled to.
pub open spec fn ok_pairs_upto(v: Seq<ObjectId>, p: Seq<Result<ObjectId, Error>>, n: int) -> Seq<(ObjectId, ObjectId)>
    decreases n,
{
    if n <= 0 {
        Seq::empty()
    } else {
        match p[n - 1] {
            Ok(id) => ok_pairs_upto(v, p, n - 1).push((v[n - 1], id)),
            Err(_) => ok_pairs_upto(v, p, n - 1),
        }
    }
}

/// The distinct objects that the first `n` pairs peeled to, in order of
/// first appearance.
pub open spec fn distinct_targets_upto(s: Seq<(ObjectId, ObjectId)>, n: int) -> Seq<ObjectId>
    decreases n,
{
    if n <= 0 {
        Seq::empty()
    } else if distinct_targets_upto(s, n - 1).contains(s[n - 1].1) {
        distinct_targets_upto(s, n - 1)
    } else {
        distinct_targets_upto(s, n - 1).push(s[n - 1].1)
    }
}

/// The candidates of a part once its reference, if it has one and no
/// candidates yet, has been followed.
pub open spec fn followed(rf: Option<Reference>, objs: Option<Vec<ObjectId>>) -> Option<Seq<ObjectId>> {
    match (rf, objs) {
        (Some(rf), None) => Some(seq![direct_id(rf).unwrap()]),
        (_, Some(v)) => Some(v@),
        (None, None) => None,
    }
}

/// The candidates of a part, as a sequence.
pub open spec fn candidates_view(objs: Option<Vec<ObjectId>>) -> Option<Seq<ObjectId>> {
    match objs {
        Some(v) => Some(v@),
        None => None,
    }
}

/// Moves the items of `from` to the end of `to`, in order.
fn append_all<T>(to: &mut Vec<T>, from: Vec<T>)
    ensures
        final(to)@ == old(to)@ + from@,
{
    let mut from = from;
    to.append(&mut from);
}

fn contains_id(v: &Vec<ObjectId>, id: ObjectId) -> (r: bool)
    ensures
        r == v@.contains(id),
{
    let mut k: usize = 0;
    while k < v.len()
        invariant
            k <= v@.len(),
            forall|x: int| 0 <= x < k ==> v@[x] != id,
        decreases v@.len() - k,
    {
        if v[k] == id {
            return true;
        }
        k += 1;
    }
    false
}

proof fn lemma_distinct_targets(s: Seq<(ObjectId, ObjectId)>, n: int)
    ensures
        distinct_targets_upto(s, n).no_duplicates(),
    decreases n,
{
    if n > 0 {
        lemma_distinct_targets(s, n - 1);
    }
}

proof fn lemma_survivors_from(v: Seq<ObjectId>, f: Seq<Option<Error>>, n: int)
    requires
        0 <= n <= v.len(),
        v.no_duplicates(),
    ensures
        survivors_upto(v, f, n).no_duplicates(),
        forall|x: ObjectId| #[trigger] survivors_upto(v, f, n).contains(x) ==> exists|k: int| 0 <= k < n && v[k] == x,
    decreases n,
{
    if n > 0 {
        lemma_survivors_from(v, f, n - 1);
        let prev = survivors_upto(v, f, n - 1);
        if f[n - 1] is None {
            if prev.contains(v[n - 1]) {
                let k = choose|k: int| 0 <= k < n - 1 && #[trigger] v[k] == v[n - 1];
                assert(false);
            }
            assert forall|x: ObjectId| #[trigger] survivors_upto(v, f, n).contains(x)
                implies exists|k: int| 0 <= k < n && v[k] == x by {
                if x != v[n - 1] {
                    assert(prev.contains(x));
                }
            }
        }
    }
}

/// The state of resolving a revision specification of up to two parts
/// (`a` or `a..b`): for each part, the reference it names, the candidate
/// objects it may stand for, and whether the last call for it was the
/// disambiguation of an object name prefix; with the errors met so far.
pub struct Delegate {
    pub refs: Vec<Option<Reference>>,
    /// Candidate objects, each once.
    pub objs: Vec<Option<Vec<ObjectId>>>,
    /// The part being resolved.
    pub idx: usize,
    pub last_call_was_disambiguate_prefix: Vec<bool>,
    pub prefix: Vec<Option<Prefix>>,
    pub err: Vec<Error>,
    pub opts: Options,
}

impl Delegate {
    /// Every part has a reference, candidate, flag and prefix slot.
    pub open spec fn wf(&self) -> bool {
        &&& self.objs@.len() == self.refs@.len()
        &&& self.last_call_was_disambiguate_prefix@.len() == self.refs@.len()
        &&& self.prefix@.len() == self.refs@.len()
        &&& self.idx < self.refs@.len()
        &&& forall|i: int| 0 <= i < self.objs@.len() && (#[trigger] self.objs@[i]) is Some
            ==> self.objs@[i].unwrap()@.no_duplicates()
    }

    /// A delegate for a specification of `parts` parts, with nothing found yet.
    pub fn new(parts: usize, opts: Options) -> (r: Delegate)
        requires
            parts > 0,
        ensures
            r.wf(),
            r.refs@.len() == parts,
            r.idx == 0,
            r.opts == opts,
            r.err@.len() == 0,
            forall|i: int| 0 <= i < parts ==> (#[trigger] r.refs@[i]) is None,
            forall|i: int| 0 <= i < parts ==> (#[trigger] r.objs@[i]) is None,
            forall|i: int| 0 <= i < parts ==> !(#[trigger] r.last_call_was_disambiguate_prefix@[i]),
            forall|i: int| 0 <= i < parts ==> (#[trigger] r.prefix@[i]) is None,
    {
        let mut refs: Vec<Option<Reference>> = Vec::new();
        let mut objs: Vec<Option<Vec<ObjectId>>> = Vec::new();
        let mut last: Vec<bool> = Vec::new();
        let mut prefix: Vec<Option<Prefix>> = Vec::new();
        let mut k: usize = 0;
        while k < parts
            invariant
                k <= parts,
                refs@.len() == k,
                objs@.len() == k,
                last@.len() == k,
                prefix@.len() == k,
                forall|i: int| 0 <= i < k ==> (#[trigger] refs@[i]) is None,
                forall|i: int| 0 <= i < k ==> (#[trigger] objs@[i]) is None,
                forall|i: int| 0 <= i < k ==> !(#[trigger] last@[i]),
                forall|i: int| 0 <= i < k ==> (#[trigger] prefix@[i]) is None,
            decreases parts - k,
        {
            refs.push(None);
            objs.push(None);
            last.push(false);
            prefix.push(None);
            k += 1;
        }
        Delegate { refs, objs, idx: 0, last_call_was_disambiguate_prefix: last, prefix, err: Vec::new(), opts }
    }

    /// Gives every part that names a reference but has no candidate objects
    /// yet the object that the reference points at.
    pub fn follow_refs_to_objects_if_needed(&mut self) -> (r: Option<()>)
        requires
            old(self).refs@.len() == old(self).objs@.len(),
            forall|i: int| 0 <= i < old(self).refs@.len() && old(self).objs@[i] is None
                && (#[trigger] old(self).refs@[i]) is Some ==> direct_id(old(self).refs@[i].unwrap()) is Some,
        ensures
            r == Some(()),
            final(self).refs == old(self).refs,
            final(self).idx == old(self).idx,
            final(self).last_call_was_disambiguate_prefix == old(self).last_call_was_disambiguate_prefix,
            final(self).prefix == old(self).prefix,
            final(self).err == old(self).err,
            final(self).opts == old(self).opts,
            final(self).objs@.len() == old(self).objs@.len(),
            forall|i: int| 0 <= i < old(self).objs@.len()
                ==> followed(old(self).refs@[i], old(self).objs@[i])
                    == candidates_view(#[trigger] final(self).objs@[i]),
            forall|i: int| 0 <= i < old(self).objs@.len() && (#[trigger] old(self).objs@[i]) is Some
                ==> final(self).objs@[i] == old(self).objs@[i],
    {
        let n = self.refs.len();
        let mut i: usize = 0;
        while i < n
            invariant
                n == self.refs@.len(),
                self.refs@.len() == self.objs@.len(),
                self.refs == old(self).refs,
                self.idx == old(self).idx,
                self.last_call_was_disambiguate_prefix == old(self).last_call_was_disambiguate_prefix,
                self.prefix == old(self).prefix,
                self.err == old(self).err,
                self.opts == old(self).opts,
                i <= n,
                forall|k: int| 0 <= k < n && old(self).objs@[k] is None
                    && (#[trigger] old(self).refs@[k]) is Some ==> direct_id(old(self).refs@[k].unwrap()) is Some,
                forall|k: int| i <= k < n ==> #[trigger] self.objs@[k] == old(self).objs@[k],
                forall|k: int| 0 <= k < i ==> followed(old(self).refs@[k], old(self).objs@[k])
                    == candidates_view(#[trigger] self.objs@[k]),
                forall|k: int| 0 <= k < i && (#[trigger] old(self).objs@[k]) is Some
                    ==> self.objs@[k] == old(self).objs@[k],
            decreases n - i,
        {
            if self.objs[i].is_none() {
                match &self.refs[i] {
                    Some(rf) => {
                        let id = rf.target().try_id().unwrap();
                        let mut set: Vec<ObjectId> = Vec::new();
                        set.push(id);
                        assert(set@ == seq![id]);
                        self.objs.set(i, Some(set));
                    },
                    None => {},
                }
            }
            i += 1;
        }
        Some(())
    }

    /// Records that the last call for the current part was not the
    /// disambiguation of a prefix.
    pub fn unset_disambiguate_call(&mut self)
        requires
            old(self).idx < old(self).last_call_was_disambiguate_prefix@.len(),
        ensures
            final(self).last_call_was_disambiguate_prefix@
                == old(self).last_call_was_disambiguate_prefix@.update(old(self).idx as int, false),
            final(self).refs == old(self).refs,
            final(self).objs == old(self).objs,
            final(self).idx == old(self).idx,
            final(self).prefix == old(self).prefix,
            final(self).err == old(self).err,
            final(self).opts == old(self).opts,
    {
        let idx = self.idx;
        self.last_call_was_disambiguate_prefix.set(idx, false);
    }

    /// Takes the outcome of looking the current part up as a reference.
    /// Nothing is taken where an error was met and the part has a reference
    /// already; otherwise a found reference becomes the part's reference and
    /// a failed lookup is recorded.
    pub fn find_ref(&mut self, found: Result<Reference, Error>) -> (r: Option<()>)
        requires
            old(self).wf(),
            old(self).refs@[old(self).idx as int] is Some && old(self).err@.len() == 0 ==> found is Err,
        ensures
            final(self).wf(),
            final(self).last_call_was_disambiguate_prefix@
                == old(self).last_call_was_disambiguate_prefix@.update(old(self).idx as int, false),
            final(self).objs == old(self).objs,
            final(self).idx == old(self).idx,
            final(self).prefix == old(self).prefix,
            final(self).opts == old(self).opts,
            old(self).err@.len() > 0 && old(self).refs@[old(self).idx as int] is Some ==> {
                &&& r is None
                &&& final(self).refs == old(self).refs
                &&& final(self).err == old(self).err
            },
            !(old(self).err@.len() > 0 && old(self).refs@[old(self).idx as int] is Some) ==> match found {
                Ok(rf) => {
                    &&& r == Some(())
                    &&& final(self).refs@ == old(self).refs@.update(old(self).idx as int, Some(rf))
                    &&& final(self).err == old(self).err
                },
                Err(e) => {
                    &&& r is None
                    &&& final(self).refs == old(self).refs
                    &&& final(self).err@ == old(self).err@.push(e)
                },
            },
    {
        self.unset_disambiguate_call();
        if self.err.len() > 0 && self.refs[self.idx].is_some() {
            return None;
        }
        match found {
            Ok(rf) => {
                let idx = self.idx;
                self.refs.set(idx, Some(rf));
                Some(())
            },
            Err(e) => {
                self.err.push(e);
                None
            },
        }
    }

    /// Takes the outcome of looking an object name prefix up for the current
    /// part (`Ok(None)`: no object starts with it) and of looking the prefix
    /// up as a reference name, and settles the part by the references hint:
    /// the candidates are taken where an object is preferred, or where no
    /// reference of that name exists; the reference is taken otherwise,
    /// except under `Fail`, which records the part as ambiguous.
    pub fn disambiguate_prefix(
        &mut self,
        prefix: Prefix,
        lookup: Result<Option<Vec<ObjectId>>, Error>,
        ref_lookup: Option<Reference>,
    ) -> (r: Option<()>)
        requires
            old(self).wf(),
            lookup is Ok && lookup.unwrap() is Some ==> old(self).objs@[old(self).idx as int] is None,
            lookup is Ok && lookup.unwrap() is Some ==> lookup.unwrap().unwrap()@.no_duplicates(),
            lookup is Ok && lookup.unwrap() is Some && ref_lookup is Some
                && old(self).opts.refs_hint != RefsHint::PreferObject
                && !(old(self).opts.refs_hint == RefsHint::PreferObjectOnFullLengthHexShaUseRefOtherwise
                    && prefix.hex_len == FULL_HEX_LEN)
                ==> old(self).refs@[old(self).idx as int] is None,
        ensures
            final(self).wf(),
            final(self).last_call_was_disambiguate_prefix@
                == old(self).last_call_was_disambiguate_prefix@.update(old(self).idx as int, true),
            final(self).prefix@ == old(self).prefix@.update(old(self).idx as int, Some(prefix)),
            final(self).idx == old(self).idx,
            final(self).opts == old(self).opts,
            ({
                let i = old(self).idx as int;
                let take_object = match old(self).opts.refs_hint {
                    RefsHint::PreferObject => true,
                    RefsHint::PreferObjectOnFullLengthHexShaUseRefOtherwise => prefix.hex_len == FULL_HEX_LEN
                        || ref_lookup is None,
                    _ => ref_lookup is None,
                };
                match lookup {
                    Err(e) => {
                        &&& r is None
                        &&& final(self).err@ == old(self).err@.push(e)
                        &&& final(self).refs == old(self).refs
                        &&& final(self).objs == old(self).objs
                    },
                    Ok(None) => {
                        &&& r is None
                        &&& final(self).err@ == old(self).err@.push(Error::PrefixNotFound { prefix })
                        &&& final(self).refs == old(self).refs
                        &&& final(self).objs == old(self).objs
                    },
                    Ok(Some(candidates)) => if take_object {
                        &&& r == Some(())
                        &&& final(self).objs@ == old(self).objs@.update(i, Some(candidates))
                        &&& final(self).refs == old(self).refs
                        &&& final(self).err == old(self).err
                    } else if old(self).opts.refs_hint == RefsHint::Fail {
                        &&& r is None
                        &&& final(self).refs@ == old(self).refs@.update(i, ref_lookup)
                        &&& final(self).objs == old(self).objs
                        &&& final(self).err@ == old(self).err@.push(
                            Error::AmbiguousRefAndObject { prefix, reference: ref_lookup.unwrap() },
                        ).push(Error::Ambiguous { prefix, candidates })
                    } else {
                        &&& r == Some(())
                        &&& final(self).refs@ == old(self).refs@.update(i, ref_lookup)
                        &&& final(self).objs == old(self).objs
                        &&& final(self).err == old(self).err
                    },
                }
            }),
    {
        let idx = self.idx;
        self.last_call_was_disambiguate_prefix.set(idx, true);
        self.prefix.set(idx, Some(prefix));
        match lookup {
            Err(e) => {
                self.err.push(e);
                None
            },
            Ok(None) => {
                self.err.push(Error::PrefixNotFound { prefix });
                None
            },
            Ok(Some(candidates)) => {
                let prefer_object = match self.opts.refs_hint {
                    RefsHint::PreferObject => true,
                    RefsHint::PreferObjectOnFullLengthHexShaUseRefOtherwise => prefix.hex_len == FULL_HEX_LEN,
                    _ => false,
                };
                if prefer_object {
                    self.objs.set(idx, Some(candidates));
                    return Some(());
                }
                match ref_lookup {
                    Some(reference) => {
                        if self.opts.refs_hint == RefsHint::Fail {
                            self.refs.set(idx, Some(reference.duplicate()));
                            self.err.push(Error::AmbiguousRefAndObject { prefix, reference });
                            self.err.push(Error::Ambiguous { prefix, candidates });
                            None
                        } else {
                            self.refs.set(idx, Some(reference));
                            Some(())
                        }
                    },
                    None => {
                        self.objs.set(idx, Some(candidates));
                        Some(())
                    },
                }
            },
        }
    }

    /// Takes, for each candidate of the current part (once every reference
    /// is followed to its object), the outcome of peeling it to the kind asked
    /// for, and records the failures. Where no candidate could be peeled the
    /// candidates stay as they are and `None` is returned; otherwise the
    /// candidates become the distinct objects they peeled to.
    pub fn peel_until(&mut self, peeled: Vec<Result<ObjectId, Error>>) -> (r: Option<()>)
        requires
            old(self).wf(),
            forall|i: int| 0 <= i < old(self).refs@.len() && old(self).objs@[i] is None
                && (#[trigger] old(self).refs@[i]) is Some ==> direct_id(old(self).refs@[i].unwrap()) is Some,
            followed(old(self).refs@[old(self).idx as int], old(self).objs@[old(self).idx as int]) matches Some(v)
                ==> v.len() == peeled@.len(),
        ensures
            final(self).wf(),
            final(self).last_call_was_disambiguate_prefix@
                == old(self).last_call_was_disambiguate_prefix@.update(old(self).idx as int, false),
            final(self).refs == old(self).refs,
            final(self).idx == old(self).idx,
            final(self).prefix == old(self).prefix,
            final(self).opts == old(self).opts,
            forall|i: int| 0 <= i < old(self).objs@.len() && i != old(self).idx
                ==> candidates_view(#[trigger] final(self).objs@[i]) == followed(old(self).refs@[i], old(self).objs@[i]),
            ({
                let i = old(self).idx as int;
                let before = followed(old(self).refs@[i], old(self).objs@[i]);
                let n = peeled@.len() as int;
                if before is None {
                    &&& r is None
                    &&& final(self).err == old(self).err
                    &&& final(self).objs@[i] is None
                } else {
                    let pairs = ok_pairs_upto(before.unwrap(), peeled@, n);
                    &&& final(self).err@ == old(self).err@ + peel_errors_upto(peeled@, n)
                    &&& pairs.len() == 0 ==> {
                        &&& r is None
                        &&& candidates_view(final(self).objs@[i]) == before
                    }
                    &&& pairs.len() > 0 ==> {
                        &&& r == Some(())
                        &&& candidates_view(final(self).objs@[i]) == Some(distinct_targets_upto(pairs, pairs.len() as int))
                    }
                }
            }),
    {
        self.unset_disambiguate_call();
        self.follow_refs_to_objects_if_needed();
        proof {
            assert forall|i: int| 0 <= i < self.objs@.len() && (#[trigger] self.objs@[i]) is Some
                implies self.objs@[i].unwrap()@.no_duplicates() by {
                assert(candidates_view(self.objs@[i]) == followed(old(self).refs@[i], old(self).objs@[i]));
            }
        }
        let idx = self.idx;
        if self.objs[idx].is_none() {
            return None;
        }
        let ghost cands = self.objs@[idx as int].unwrap()@;
        let ghost all = peeled@;
        let n = peeled.len();
        let mut rest = peeled;
        let mut errors: Vec<Error> = Vec::new();
        let mut replacements = replacements_new();
        let mut k: usize = 0;
        while k < n
            invariant
                n == all.len(),
                k <= n,
                self.wf(),
                idx == self.idx,
                self.objs@[idx as int] is Some,
                self.objs@[idx as int].unwrap()@ == cands,
                cands.len() == n,
                rest@ == all.subrange(k as int, n as int),
                errors@ == peel_errors_upto(all, k as int),
                replacements_of(replacements) == ok_pairs_upto(cands, all, k as int),
                replacements_of(replacements).len() <= k,
            decreases n - k,
        {
            let outcome = rest.remove(0);
            assert(outcome == all[k as int]);
            assert(rest@ =~= all.subrange(k as int + 1, n as int));
            match outcome {
                Ok(id) => {
                    let find = self.objs[idx].as_ref().unwrap()[k];
                    replacements_push(&mut replacements, (find, id));
                },
                Err(e) => {
                    errors.push(e);
                },
            }
            k += 1;
        }
        append_all(&mut self.err, errors);
        let m = replacements_len(&replacements);
        if m == 0 {
            return None;
        }
        let ghost pairs = replacements_of(replacements);
        let mut targets: Vec<ObjectId> = Vec::new();
        let mut j: usize = 0;
        while j < m
            invariant
                m == pairs.len(),
                pairs == replacements_of(replacements),
                j <= m,
                targets@ == distinct_targets_upto(pairs, j as int),
            decreases m - j,
        {
            let (_, replace) = replacements_get(&replacements, j);
            if !contains_id(&targets, replace) {
                targets.push(replace);
            }
            j += 1;
        }
        proof {
            lemma_distinct_targets(pairs, m as int);
        }
        self.objs.set(idx, Some(targets));
        Some(())
    }

    /// Applies the object kind hint to the candidates left by the
    /// disambiguation of a prefix, if that was the last call for the current
    /// part: takes, for each candidate, the error that checking it against
    /// the hint gave (see [`ObjectKindHint::expected`]), if any, and records
    /// those errors; the failed candidates are dropped unless all failed.
    pub fn disambiguate_objects_by_fallback_hint(&mut self, failures: Vec<Option<Error>>)
        requires
            old(self).wf(),
            old(self).last_call_was_disambiguate_prefix@[old(self).idx as int]
                && old(self).opts.object_kind_hint is Some
                && old(self).objs@[old(self).idx as int] is Some
                ==> old(self).objs@[old(self).idx as int].unwrap()@.len() == failures@.len(),
        ensures
            final(self).wf(),
            final(self).refs == old(self).refs,
            final(self).idx == old(self).idx,
            final(self).prefix == old(self).prefix,
            final(self).opts == old(self).opts,
            ({
                let i = old(self).idx as int;
                let n = failures@.len() as int;
                if !old(self).last_call_was_disambiguate_prefix@[i] {
                    &&& final(self).last_call_was_disambiguate_prefix == old(self).last_call_was_disambiguate_prefix
                    &&& final(self).objs == old(self).objs
                    &&& final(self).err == old(self).err
                } else {
                    &&& final(self).last_call_was_disambiguate_prefix@
                        == old(self).last_call_was_disambiguate_prefix@.update(i, false)
                    &&& old(self).opts.object_kind_hint is None || old(self).objs@[i] is None ==> {
                        &&& final(self).objs == old(self).objs
                        &&& final(self).err == old(self).err
                    }
                    &&& old(self).opts.object_kind_hint is Some && old(self).objs@[i] is Some ==> {
                        let kept = survivors_upto(old(self).objs@[i].unwrap()@, failures@, n);
                        &&& final(self).err@ == old(self).err@ + failures_upto(failures@, n)
                        &&& final(self).objs@.len() == old(self).objs@.len()
                        &&& forall|j: int| 0 <= j < old(self).objs@.len() && j != i
                            ==> #[trigger] final(self).objs@[j] == old(self).objs@[j]
                        &&& kept.len() == 0 ==> final(self).objs@[i] == old(self).objs@[i]
                        &&& kept.len() > 0 ==> candidates_view(final(self).objs@[i]) == Some(kept)
                    }
                }
            }),
    {
        let idx = self.idx;
        if !self.last_call_was_disambiguate_prefix[idx] {
            return;
        }
        self.unset_disambiguate_call();
        if self.opts.object_kind_hint.is_none() || self.objs[idx].is_none() {
            return;
        }
        let ghost all = failures@;
        let ghost objs0 = self.objs@;
        let n = failures.len();
        let mut rest = failures;
        let mut errors: Vec<Error> = Vec::new();
        let mut kept: Vec<ObjectId> = Vec::new();
        let mut k: usize = 0;
        while k < n
            invariant
                n == all.len(),
                k <= n,
                self.wf(),
                idx == self.idx,
                self.objs@ == objs0,
                objs0[idx as int] is Some,
                objs0[idx as int].unwrap()@.len() == n,
                rest@ == all.subrange(k as int, n as int),
                errors@ == failures_upto(all, k as int),
                kept@ == survivors_upto(objs0[idx as int].unwrap()@, all, k as int),
            decreases n - k,
        {
            let outcome = rest.remove(0);
            assert(outcome == all[k as int]);
            assert(rest@ =~= all.subrange(k as int + 1, n as int));
            match outcome {
                Some(e) => {
                    errors.push(e);
                },
                None => {
                    let id = self.objs[idx].as_ref().unwrap()[k];
                    kept.push(id);
                },
            }
            k += 1;
        }
        append_all(&mut self.err, errors);
        proof {
            lemma_survivors_from(objs0[idx as int].unwrap()@, all, n as int);
        }
        if kept.len() > 0 {
            self.objs.set(idx, Some(kept));
        }
    }
}

} // verus!
