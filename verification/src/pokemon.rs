//! The record type: a creature with a name, a level, a category, an
//! experience counter and a sex, together with the leveling rule and the
//! breeding rules.
use vstd::prelude::*;

use crate::alea;

verus! {

/// The closed set of categories a record can carry.
#[derive(Clone, Copy, Debug, PartialEq, Eq, Structural)]
pub enum PokemonType {
    Feu,
    Eau,
    Plante,
    Electrik,
    Normal,
}

impl PokemonType {
    /// The canonical display string of each category.
    pub open spec fn nom_affichage_spec(self) -> Seq<char> {
        match self {
            PokemonType::Feu => "Feu"@,
            PokemonType::Eau => "Eau"@,
            PokemonType::Plante => "Plante"@,
            PokemonType::Electrik => "Electrik"@,
            PokemonType::Normal => "Normal"@,
        }
    }

    pub fn nom_affichage(&self) -> (r: &'static str)
        ensures
            r@ == self.nom_affichage_spec(),
    {
        match self {
            PokemonType::Feu => "Feu",
            PokemonType::Eau => "Eau",
            PokemonType::Plante => "Plante",
            PokemonType::Electrik => "Electrik",
            PokemonType::Normal => "Normal",
        }
    }
}

/// The two sexes; breeding requires opposite values.
#[derive(Clone, Copy, Debug, PartialEq, Eq, Structural)]
pub enum Genre {
    Male,
    Femelle,
}

impl Genre {
    /// The canonical display string of each sex.
    pub open spec fn nom_affichage_spec(self) -> Seq<char> {
        match self {
            Genre::Male => "Mâle"@,
            Genre::Femelle => "Femelle"@,
        }
    }

    pub fn nom_affichage(&self) -> (r: &'static str)
        ensures
            r@ == self.nom_affichage_spec(),
    {
        match self {
            Genre::Male => "Mâle",
            Genre::Femelle => "Femelle",
        }
    }
}

/// One managed record.
#[derive(Debug)]
pub struct Pokemon {
    pub nom: String,
    pub niveau: u32,
    pub pokemon_type: PokemonType,
    pub experience: u32,
    pub genre: Genre,
}

/// The record a training session leaves behind: the gained points are added
/// to the counter, each full hundred becomes one level, and the remainder
/// stays in the counter.
pub open spec fn entraine(p: Pokemon, xp: u32) -> Pokemon {
    let total = p.experience + xp;
    if total / 100 > 0 {
        Pokemon {
            nom: p.nom,
            niveau: (p.niveau + total / 100) as u32,
            pokemon_type: p.pokemon_type,
            experience: (total % 100) as u32,
            genre: p.genre,
        }
    } else {
        Pokemon {
            nom: p.nom,
            niveau: p.niveau,
            pokemon_type: p.pokemon_type,
            experience: total as u32,
            genre: p.genre,
        }
    }
}

/// The counters are machine integers without a documented upper bound; a
/// training call must not push either past the width of the type.
pub open spec fn entrainement_sans_debordement(p: Pokemon, xp: u32) -> bool {
    &&& p.experience + xp <= u32::MAX
    &&& p.niveau + (p.experience + xp) / 100 <= u32::MAX
}

/// The eligibility rule: same category, opposite sexes, both at least level
/// five.
pub open spec fn compatibles(a: Pokemon, b: Pokemon) -> bool {
    &&& a.pokemon_type == b.pokemon_type
    &&& a.genre != b.genre
    &&& a.niveau >= 5
    &&& b.niveau >= 5
}

/// The fixed list of names an offspring can be given.
pub open spec fn nom_candidat(i: int) -> Seq<char> {
    if i == 0 {
        "Babybulbe"@
    } else if i == 1 {
        "Poussin"@
    } else if i == 2 {
        "Flambi"@
    } else if i == 3 {
        "Aquali"@
    } else if i == 4 {
        "Sparkle"@
    } else {
        "Mystère"@
    }
}

/// Whether a name is one of the offspring-name candidates.
pub open spec fn nom_de_candidat(n: Seq<char>) -> bool {
    exists|i: int| 0 <= i < 6 && n == #[trigger] nom_candidat(i)
}

/// The eligibility rule is symmetric: the category test, the sex-inequality
/// test and the level test each read both records the same way.
pub proof fn lemma_compatibilite_symetrique(a: Pokemon, b: Pokemon)
    ensures
        compatibles(a, b) == compatibles(b, a),
{
}

/// No record is eligible with itself: the rule asks for opposite sexes, and
/// a record's sex equals its own.
pub proof fn lemma_pas_d_auto_compatibilite(r: Pokemon)
    ensures
        !compatibles(r, r),
{
}

impl Pokemon {
    /// The invariant kept by every operation: the experience counter stays
    /// below one hundred, the threshold at which it is folded into levels.
    pub open spec fn valide(&self) -> bool {
        self.experience < 100
    }

    pub fn new(nom: String, pokemon_type: PokemonType, genre: Genre) -> (p: Self)
        ensures
            p.nom == nom,
            p.niveau == 1,
            p.pokemon_type == pokemon_type,
            p.experience == 0,
            p.genre == genre,
            p.valide(),
    {
        Pokemon { nom, niveau: 1, pokemon_type, experience: 0, genre }
    }

    /// Adds the gained points and folds each full hundred into one level.
    /// Returns whether at least one level was gained, so that the caller can
    /// announce the new level.
    pub fn gagner_experience(&mut self, xp: u32) -> (monte: bool)
        requires
            entrainement_sans_debordement(*old(self), xp),
        ensures
            *final(self) == entraine(*old(self), xp),
            final(self).valide(),
            final(self).niveau >= old(self).niveau,
            monte == (final(self).niveau > old(self).niveau),
    {
        self.experience = self.experience + xp;
        let niveaux_a_ajouter = self.experience / 100;
        if niveaux_a_ajouter > 0 {
            self.niveau = self.niveau + niveaux_a_ajouter;
            self.experience = self.experience % 100;
            true
        } else {
            false
        }
    }

    pub fn peuvent_se_reproduire(&self, autre: &Pokemon) -> (r: bool)
        ensures
            r == compatibles(*self, *autre),
    {
        if self.pokemon_type != autre.pokemon_type {
            return false;
        }
        if self.genre == autre.genre {
            return false;
        }
        if self.niveau < 5 || autre.niveau < 5 {
            return false;
        }
        true
    }

    /// The deterministic part of spawning: given the two draws (the
    /// offspring's sex and the index of its name), builds the offspring, or
    /// nothing when the pair is ineligible.
    pub fn reproduire_avec_tirages(
        &self,
        autre: &Pokemon,
        genre_bebe: Genre,
        indice_nom: usize,
    ) -> (r: Option<Pokemon>)
        requires
            indice_nom < 6,
        ensures
            r is Some <==> compatibles(*self, *autre),
            r is Some ==> {
                let bebe = r.unwrap();
                &&& bebe.nom@ == nom_candidat(indice_nom as int)
                &&& bebe.niveau == 1
                &&& bebe.pokemon_type == self.pokemon_type
                &&& bebe.experience == 0
                &&& bebe.genre == genre_bebe
                &&& bebe.valide()
            },
    {
        if self.peuvent_se_reproduire(autre) {
            let nom = nom_du_candidat(indice_nom);
            Some(Pokemon::new(nom.to_owned(), self.pokemon_type, genre_bebe))
        } else {
            None
        }
    }

    /// Spawning: draws the offspring's sex and name at random, then builds
    /// it. The result is present exactly when the pair is eligible; the
    /// offspring's level, counter and category do not depend on the draws.
    pub fn reproduire(&self, autre: &Pokemon) -> (r: Option<Pokemon>)
        ensures
            r is Some <==> compatibles(*self, *autre),
            r is Some ==> {
                let bebe = r.unwrap();
                &&& nom_de_candidat(bebe.nom@)
                &&& bebe.niveau == 1
                &&& bebe.pokemon_type == self.pokemon_type
                &&& bebe.experience == 0
                &&& bebe.valide()
            },
    {
        let genre_bebe = if alea::tirage_pile_ou_face() {
            Genre::Male
        } else {
            Genre::Femelle
        };
        let indice_nom = alea::tirage_indice(6);
        let r = self.reproduire_avec_tirages(autre, genre_bebe, indice_nom);
        proof {
            if r is Some {
                assert(r.unwrap().nom@ == nom_candidat(indice_nom as int));
            }
        }
        r
    }
}

/// The offspring-name candidate at a given index.
pub fn nom_du_candidat(i: usize) -> (r: &'static str)
    requires
        i < 6,
    ensures
        r@ == nom_candidat(i as int),
{
    match i {
        0 => "Babybulbe",
        1 => "Poussin",
        2 => "Flambi",
        3 => "Aquali",
        4 => "Sparkle",
        _ => "Mystère",
    }
}

} // verus!
