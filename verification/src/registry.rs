//! The identity registry: for each of the two families, which label the
//! vertex of an identifier has. Vertex files fill it; edge files, which name
//! such vertices by identifier alone, read it.

use crate::error::{Family, ImportError};
use std::collections::HashMap;
use vstd::prelude::*;

verus! {

/// The labels of a map from identifier to label, as sequences of
/// characters.
pub open spec fn labels_of(held: Map<u64, String>) -> Map<u64, Seq<char>> {
    Map::new(|id: u64| held.contains_key(id), |id: u64| held[id]@)
}

/// What an `IdentityRegistry` stands for: one map from identifier to label
/// for each family.
pub struct RegistryView {
    pub place: Map<u64, Seq<char>>,
    pub organisation: Map<u64, Seq<char>>,
}

impl RegistryView {
    /// The registry that holds nothing.
    pub open spec fn empty() -> RegistryView {
        RegistryView {
            place: Map::<u64, Seq<char>>::empty(),
            organisation: Map::<u64, Seq<char>>::empty(),
        }
    }

    /// The map of one family.
    pub open spec fn of(self, family: Family) -> Map<u64, Seq<char>> {
        match family {
            Family::Place => self.place,
            Family::Organisation => self.organisation,
        }
    }

    /// The registry with `id` set to `label` in one family.
    pub open spec fn with(self, family: Family, id: u64, label: Seq<char>) -> RegistryView {
        match family {
            Family::Place => RegistryView { place: self.place.insert(id, label), ..self },
            Family::Organisation => RegistryView {
                organisation: self.organisation.insert(id, label),
                ..self
            },
        }
    }

    /// Whether every identifier that `self` holds, `later` holds with the
    /// same label.
    pub open spec fn kept_by(self, later: RegistryView) -> bool {
        &&& self.place.submap_of(later.place)
        &&& self.organisation.submap_of(later.organisation)
    }
}

/// The labels of the vertices of the two families, by identifier.
pub struct IdentityRegistry {
    place: HashMap<u64, String>,
    organisation: HashMap<u64, String>,
}

impl View for IdentityRegistry {
    type V = RegistryView;

    closed spec fn view(&self) -> RegistryView {
        RegistryView { place: labels_of(self.place@), organisation: labels_of(self.organisation@) }
    }
}

impl IdentityRegistry {
    /// A registry that holds nothing.
    pub fn new() -> (out: Self)
        ensures
            out@ == RegistryView::empty(),
    {
        let out = IdentityRegistry { place: HashMap::new(), organisation: HashMap::new() };
        assert(out@.place =~= Map::<u64, Seq<char>>::empty());
        assert(out@.organisation =~= Map::<u64, Seq<char>>::empty());
        out
    }

    /// Whether the family holds `id`.
    pub fn contains(&self, family: Family, id: u64) -> (held: bool)
        ensures
            held == self@.of(family).contains_key(id),
    {
        match family {
            Family::Place => self.place.contains_key(&id),
            Family::Organisation => self.organisation.contains_key(&id),
        }
    }

    /// The number of identifiers that the family holds.
    pub fn len(&self, family: Family) -> (count: usize)
        ensures
            count == self@.of(family).len(),
    {
        proof {
            assert(self@.place.dom() =~= self.place@.dom());
            assert(self@.organisation.dom() =~= self.organisation@.dom());
        }
        match family {
            Family::Place => self.place.len(),
            Family::Organisation => self.organisation.len(),
        }
    }

    /// Sets down that the vertex `id` of `family` has `label`. An identifier
    /// that the family holds already is refused, and nothing changes.
    pub fn register(&mut self, family: Family, id: u64, label: &str) -> (out: Result<
        (),
        ImportError,
    >)
        ensures
            match out {
                Ok(_) => !old(self)@.of(family).contains_key(id) && final(self)@ == old(self)@.with(
                    family,
                    id,
                    label@,
                ),
                Err(e) => old(self)@.of(family).contains_key(id) && e
                    == (ImportError::DuplicateIdentifier { family, id }) && final(self)@ == old(self)@,
            },
    {
        if self.contains(family, id) {
            return Err(ImportError::DuplicateIdentifier { family, id });
        }
        let ghost before = self@;
        match family {
            Family::Place => {
                self.place.insert(id, label.to_owned());
                assert(self@.place =~= before.place.insert(id, label@));
            },
            Family::Organisation => {
                self.organisation.insert(id, label.to_owned());
                assert(self@.organisation =~= before.organisation.insert(id, label@));
            },
        }
        Ok(())
    }

    /// The label that the vertex `id` of `family` was registered with. An
    /// identifier that the family does not hold is refused.
    pub fn resolve(&self, family: Family, id: u64) -> (out: Result<String, ImportError>)
        ensures
            match out {
                Ok(label) => self@.of(family).contains_key(id) && label@ == self@.of(family)[id],
                Err(e) => !self@.of(family).contains_key(id) && e == (ImportError::UnknownIdentifier {
                    family,
                    id,
                }),
            },
    {
        let found = match family {
            Family::Place => self.place.get(&id),
            Family::Organisation => self.organisation.get(&id),
        };
        match found {
            Some(label) => Ok(label.clone()),
            None => Err(ImportError::UnknownIdentifier { family, id }),
        }
    }
}

impl Default for IdentityRegistry {
    fn default() -> (out: Self)
        ensures
            out@ == RegistryView::empty(),
    {
        IdentityRegistry::new()
    }
}

} // verus!
