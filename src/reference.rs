use vstd::prelude::*;

use crate::hash::{hex_number, is_hex, ObjectId};

verus! {

/// Where a reference points: at an object, or at another reference by name.
#[derive(Debug, PartialEq, Eq)]
pub enum Target {
    Peeled(ObjectId),
    Symbolic(String),
}

impl Target {
    /// The object pointed at, if the target is one.
    pub fn try_id(&self) -> (r: Option<ObjectId>)
        ensures
            match *self {
                Target::Peeled(id) => r == Some(id),
                Target::Symbolic(_) => r is None,
            },
    {
        match self {
            Target::Peeled(id) => Some(*id),
            Target::Symbolic(_) => None,
        }
    }

    /// A copy of this target.
    pub fn duplicate(&self) -> (r: Target)
        ensures
            r == *self,
    {
        match self {
            Target::Peeled(id) => Target::Peeled(*id),
            Target::Symbolic(name) => Target::Symbolic(name.clone()),
        }
    }
}

/// How a reference is stored.
#[derive(Debug, PartialEq, Eq)]
pub enum Backing {
    /// A reference read from the packed references, with its target and,
    /// where the target is an annotated tag, the object the tag leads to.
    OwnedPacked { name: String, target: ObjectId, object: Option<ObjectId> },
    /// A reference read from its own file.
    LooseFile { name: String, target: Target },
}

/// A named reference.
#[derive(Debug, PartialEq, Eq)]
pub struct Reference {
    pub backing: Backing,
}

/// Why a reference could not be peeled.
#[derive(Debug, PartialEq, Eq)]
pub enum Error {
    /// The reference store or the object database failed while a loose
    /// reference was followed and peeled.
    LoosePeelToId { name: String },
}

/// The object a reference leads to without consulting the store, if any.
pub open spec fn direct_id(r: Reference) -> Option<ObjectId> {
    match r.backing {
        Backing::OwnedPacked { target, .. } => Some(target),
        Backing::LooseFile { target, .. } => match target {
            Target::Peeled(id) => Some(id),
            Target::Symbolic(_) => None,
        },
    }
}

impl Reference {
    /// A packed reference.
    pub fn packed(name: String, target: ObjectId, object: Option<ObjectId>) -> (r: Reference)
        ensures
            r.backing == (Backing::OwnedPacked { name, target, object }),
    {
        Reference { backing: Backing::OwnedPacked { name, target, object } }
    }

    /// A packed reference as the packed references list it: the peeled
    /// object of a tag, where there is one, comes as 40 hexadecimal digits.
    pub fn from_packed(name: String, target: ObjectId, object_hex: Option<Vec<u8>>) -> (r: Reference)
        requires
            object_hex matches Some(h) ==> h@.len() == 40 && is_hex(h@),
        ensures
            r.backing == (Backing::OwnedPacked {
                name,
                target,
                object: match object_hex {
                    Some(h) => Some(ObjectId {
                        high: hex_number(h@, 32) as u128,
                        low: hex_number(h@.subrange(32, 40), 8) as u32,
                    }),
                    None => None,
                },
            }),
    {
        let object = match &object_hex {
            Some(h) => Some(ObjectId::from_hex(h).unwrap()),
            None => None,
        };
        Reference { backing: Backing::OwnedPacked { name, target, object } }
    }

    /// A loose reference.
    pub fn loose(name: String, target: Target) -> (r: Reference)
        ensures
            r.backing == (Backing::LooseFile { name, target }),
    {
        Reference { backing: Backing::LooseFile { name, target } }
    }

    /// A copy of this reference.
    pub fn duplicate(&self) -> (r: Reference)
        ensures
            r == *self,
    {
        match &self.backing {
            Backing::OwnedPacked { name, target, object } => Reference {
                backing: Backing::OwnedPacked { name: name.clone(), target: *target, object: *object },
            },
            Backing::LooseFile { name, target } => Reference {
                backing: Backing::LooseFile { name: name.clone(), target: target.duplicate() },
            },
        }
    }

    /// Where the reference points; a packed reference always points at an
    /// object.
    pub fn target(&self) -> (r: Target)
        ensures
            match self.backing {
                Backing::OwnedPacked { target, .. } => r == Target::Peeled(target),
                Backing::LooseFile { target, .. } => r == target,
            },
    {
        match &self.backing {
            Backing::OwnedPacked { target, .. } => Target::Peeled(*target),
            Backing::LooseFile { target, .. } => target.duplicate(),
        }
    }

    /// The full name of the reference.
    pub fn name(&self) -> (r: String)
        ensures
            match self.backing {
                Backing::OwnedPacked { name, .. } => r == name,
                Backing::LooseFile { name, .. } => r == name,
            },
    {
        match &self.backing {
            Backing::OwnedPacked { name, .. } => name.clone(),
            Backing::LooseFile { name, .. } => name.clone(),
        }
    }

    /// Peels the reference to the object it finally points at and keeps
    /// that object as its target. A packed reference knows it already: the
    /// object its tag leads to, else its target. For a loose reference the
    /// caller follows the chain of references through the reference store and
    /// peels annotated tags through the object database; `loose_peeled` is the
    /// outcome of that walk, which is returned and, on success, stored as the
    /// reference's target. A packed reference ignores it.
    pub fn peel_to_oid_in_place(&mut self, loose_peeled: Result<ObjectId, Error>) -> (r: Result<ObjectId, Error>)
        ensures
            match old(self).backing {
                Backing::OwnedPacked { name, target, object } => {
                    let peeled = match object {
                        Some(o) => o,
                        None => target,
                    };
                    &&& r == Ok::<ObjectId, Error>(peeled)
                    &&& final(self).backing == (Backing::OwnedPacked { name, target: peeled, object: None })
                },
                Backing::LooseFile { name, target } => {
                    &&& r == loose_peeled
                    &&& match loose_peeled {
                        Ok(id) => final(self).backing == (Backing::LooseFile { name, target: Target::Peeled(id) }),
                        Err(_) => *final(self) == *old(self),
                    }
                },
            },
    {
        match &mut self.backing {
            Backing::OwnedPacked { target, object, .. } => {
                if let Some(peeled_id) = *object {
                    *target = peeled_id;
                }
                *object = None;
                Ok(*target)
            },
            Backing::LooseFile { target, .. } => {
                match loose_peeled {
                    Ok(id) => {
                        *target = Target::Peeled(id);
                        Ok(id)
                    },
                    Err(e) => Err(e),
                }
            },
        }
    }
}

} // verus!
