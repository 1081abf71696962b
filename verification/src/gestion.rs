//! The collection manager: it owns the ordered list of records and carries
//! the bulk operations — add, train all, attempt a spawn, sort, and the
//! text form used to persist the list.
use vstd::prelude::*;

use crate::pokemon::{compatibles, entraine, entrainement_sans_debordement, nom_de_candidat, Pokemon};
use crate::texte::{formater_ligne, serialisation};
use crate::tri::{
    cle_niveau, cle_type, garde_cle, lemma_inserer_position, lemma_tri_prefixe_garde,
    lemma_tri_prefixe_len, lemma_tri_prefixe_trie, rang_affichage, tri_prefixe, tri_stable,
    trie_par,
};
use vstd::string::StringExecFns;

verus! {

/// The in-memory store: an ordered sequence of records, insertion order
/// kept except when a sort is asked for. Records are only ever appended.
#[derive(Debug)]
pub struct Elevage {
    pokemon: Vec<Pokemon>,
}

impl View for Elevage {
    type V = Seq<Pokemon>;

    closed spec fn view(&self) -> Seq<Pokemon> {
        self.pokemon@
    }
}

impl Elevage {
    pub fn new() -> (e: Self)
        ensures
            e@ == Seq::<Pokemon>::empty(),
    {
        Elevage { pokemon: Vec::new() }
    }

    /// Appends a record at the end; nothing is checked and nothing else
    /// moves.
    pub fn ajouter_pokemon(&mut self, pokemon: Pokemon)
        ensures
            final(self)@ == old(self)@.push(pokemon),
    {
        self.pokemon.push(pokemon);
    }

    pub fn nombre_de_pokemon(&self) -> (n: usize)
        ensures
            n == self@.len(),
    {
        self.pokemon.len()
    }

    pub fn pokemon_a(&self, index: usize) -> (p: &Pokemon)
        requires
            index < self@.len(),
        ensures
            *p == self@[index as int],
    {
        &self.pokemon[index]
    }

    /// Trains every record in sequence order: each gains the same number of
    /// points and levels up by the usual rule.
    pub fn entrainer_tous_les_pokemon(&mut self, xp: u32)
        requires
            forall|j: int|
                0 <= j < old(self)@.len() ==> entrainement_sans_debordement(
                    #[trigger] old(self)@[j],
                    xp,
                ),
        ensures
            final(self)@.len() == old(self)@.len(),
            forall|j: int|
                0 <= j < old(self)@.len() ==> final(self)@[j] == entraine(
                    #[trigger] old(self)@[j],
                    xp,
                ),
    {
        let mut i: usize = 0;
        while i < self.pokemon.len()
            invariant
                i <= self.pokemon@.len(),
                self.pokemon@.len() == old(self)@.len(),
                forall|j: int|
                    0 <= j < old(self)@.len() ==> entrainement_sans_debordement(
                        #[trigger] old(self)@[j],
                        xp,
                    ),
                forall|j: int|
                    0 <= j < i ==> self.pokemon@[j] == entraine(#[trigger] old(self)@[j], xp),
                forall|j: int| i <= j < self.pokemon@.len() ==> self.pokemon@[j] == old(self)@[j],
            decreases self.pokemon@.len() - i,
        {
            assert(self.pokemon@[i as int] == old(self)@[i as int]);
            self.pokemon[i].gagner_experience(xp);
            i = i + 1;
        }
    }

    /// Attempts a spawn between the records at the two given positions.
    /// Out-of-bounds positions and ineligible pairs leave the collection
    /// unchanged and report failure; an eligible pair always appends one
    /// newborn at the end and reports success.
    pub fn tenter_reproduction(&mut self, index1: usize, index2: usize) -> (r: bool)
        ensures
            r == (index1 < old(self)@.len() && index2 < old(self)@.len() && compatibles(
                old(self)@[index1 as int],
                old(self)@[index2 as int],
            )),
            !r ==> final(self)@ == old(self)@,
            r ==> ({
                let bebe = final(self)@.last();
                &&& final(self)@ == old(self)@.push(bebe)
                &&& bebe.niveau == 1
                &&& bebe.experience == 0
                &&& bebe.pokemon_type == old(self)@[index1 as int].pokemon_type
                &&& nom_de_candidat(bebe.nom@)
                &&& bebe.valide()
            }),
    {
        if index1 >= self.pokemon.len() || index2 >= self.pokemon.len() {
            return false;
        }
        let resultat = self.pokemon[index1].reproduire(&self.pokemon[index2]);
        match resultat {
            Some(bebe) => {
                self.pokemon.push(bebe);
                true
            },
            None => false,
        }
    }

    /// Builds the full text to persist: one line per record in current
    /// order, fields joined by `;`, each line ended by a newline. Writing
    /// it out is the caller's business; an I/O failure there leaves the
    /// collection untouched.
    pub fn texte_de_sauvegarde(&self) -> (r: String)
        ensures
            r@ == serialisation(self@),
    {
        let mut s = String::new();
        let mut i: usize = 0;
        while i < self.pokemon.len()
            invariant
                i <= self.pokemon@.len(),
                s@ == serialisation(self.pokemon@.subrange(0, i as int)),
            decreases self.pokemon@.len() - i,
        {
            let ligne = formater_ligne(&self.pokemon[i]);
            s.append(ligne.as_str());
            s.append("\n");
            proof {
                reveal_strlit("\n");
                assert("\n"@ =~= seq!['\n']);
                let prochain = self.pokemon@.subrange(0, i + 1);
                assert(prochain.drop_last() =~= self.pokemon@.subrange(0, i as int));
                assert(prochain.last() == self.pokemon@[i as int]);
            }
            i = i + 1;
        }
        proof {
            assert(self.pokemon@.subrange(0, self.pokemon@.len() as int) =~= self.pokemon@);
        }
        s
    }

    /// Stable insertion sort by level, ascending: ties keep their prior
    /// relative order, and a second application changes nothing.
    pub fn trier_par_niveau(&mut self)
        ensures
            final(self)@ == tri_stable(cle_niveau(), old(self)@),
            trie_par(cle_niveau(), final(self)@),
            final(self)@.len() == old(self)@.len(),
            forall|k: int| #[trigger] garde_cle(cle_niveau(), k, final(self)@) == garde_cle(
                cle_niveau(),
                k,
                old(self)@,
            ),
    {
        let ghost cle = cle_niveau();
        let ghost s0 = self.pokemon@;
        let mut i: usize = 0;
        while i < self.pokemon.len()
            invariant
                cle == cle_niveau(),
                i <= self.pokemon@.len(),
                self.pokemon@.len() == s0.len(),
                self.pokemon@.subrange(0, i as int) == tri_prefixe(cle, s0, i as int),
                self.pokemon@.subrange(i as int, s0.len() as int) == s0.subrange(
                    i as int,
                    s0.len() as int,
                ),
            decreases s0.len() - i,
        {
            proof {
                assert(forall|q: Pokemon| #[trigger] cle(q) == q.niveau as int);
            }
            let ghost v = self.pokemon@;
            let ghost p = v[i as int];
            let niveau_p = self.pokemon[i].niveau;
            let mut j: usize = 0;
            while j < i && self.pokemon[j].niveau <= niveau_p
                invariant
                    cle == cle_niveau(),
                    forall|q: Pokemon| #[trigger] cle(q) == q.niveau as int,
                    j <= i,
                    i < v.len(),
                    self.pokemon@ == v,
                    p == v[i as int],
                    niveau_p == p.niveau,
                    forall|t: int| 0 <= t < j ==> #[trigger] cle(v[t]) <= cle(p),
                decreases i - j,
            {
                j = j + 1;
            }
            let enregistrement = self.pokemon.remove(i);
            self.pokemon.insert(j, enregistrement);
            proof {
                let prefixe = v.subrange(0, i as int);
                assert(forall|t: int| 0 <= t < j ==> prefixe[t] == v[t]);
                assert(forall|t: int| 0 <= t < j ==> #[trigger] cle(prefixe[t]) <= cle(p));
                assert(j < i ==> prefixe[j as int] == v[j as int]);
                assert(j < i ==> cle(p) < cle(prefixe[j as int]));
                lemma_inserer_position(cle, p, prefixe, j as int);
                assert(self.pokemon@.subrange(0, i + 1) =~= prefixe.subrange(0, j as int)
                    + seq![p] + prefixe.subrange(j as int, i as int));
                assert(forall|t: int| i <= t < s0.len() ==> v[t] == s0[t]) by {
                    assert(forall|t: int|
                        i <= t < s0.len() ==> v.subrange(i as int, s0.len() as int)[t - i]
                            == #[trigger] v[t]);
                    assert(forall|t: int|
                        i <= t < s0.len() ==> s0.subrange(i as int, s0.len() as int)[t - i]
                            == #[trigger] s0[t]);
                }
                assert(v[i as int] == s0[i as int]);
                assert(self.pokemon@.subrange(0, i + 1) == tri_prefixe(cle, s0, i + 1));
                assert(self.pokemon@.subrange(i + 1, s0.len() as int) =~= s0.subrange(
                    i + 1,
                    s0.len() as int,
                ));
            }
            i = i + 1;
        }
        proof {
            assert(self.pokemon@.subrange(0, s0.len() as int) =~= self.pokemon@);
            lemma_tri_prefixe_trie(cle, s0, s0.len() as int);
            lemma_tri_prefixe_len(cle, s0, s0.len() as int);
            assert forall|k: int| #[trigger] garde_cle(cle, k, self.pokemon@) == garde_cle(
                cle,
                k,
                s0,
            ) by {
                lemma_tri_prefixe_garde(cle, s0, s0.len() as int, k);
                assert(s0.subrange(0, s0.len() as int) =~= s0);
            }
        }
    }

    /// Stable insertion sort by the category's display string, in
    /// alphabetical order; ties keep their prior relative order.
    pub fn trier_par_type(&mut self)
        ensures
            final(self)@ == tri_stable(cle_type(), old(self)@),
            trie_par(cle_type(), final(self)@),
            final(self)@.len() == old(self)@.len(),
            forall|k: int| #[trigger] garde_cle(cle_type(), k, final(self)@) == garde_cle(
                cle_type(),
                k,
                old(self)@,
            ),
    {
        let ghost cle = cle_type();
        let ghost s0 = self.pokemon@;
        let mut i: usize = 0;
        while i < self.pokemon.len()
            invariant
                cle == cle_type(),
                i <= self.pokemon@.len(),
                self.pokemon@.len() == s0.len(),
                self.pokemon@.subrange(0, i as int) == tri_prefixe(cle, s0, i as int),
                self.pokemon@.subrange(i as int, s0.len() as int) == s0.subrange(
                    i as int,
                    s0.len() as int,
                ),
            decreases s0.len() - i,
        {
            proof {
                assert(forall|q: Pokemon| #[trigger] cle(q) == crate::tri::rang_type(
                    q.pokemon_type,
                ));
            }
            let ghost v = self.pokemon@;
            let ghost p = v[i as int];
            let rang_p = rang_affichage(self.pokemon[i].pokemon_type);
            let mut j: usize = 0;
            while j < i && rang_affichage(self.pokemon[j].pokemon_type) <= rang_p
                invariant
                    cle == cle_type(),
                    forall|q: Pokemon| #[trigger] cle(q) == crate::tri::rang_type(
                        q.pokemon_type,
                    ),
                    j <= i,
                    i < v.len(),
                    self.pokemon@ == v,
                    p == v[i as int],
                    rang_p as int == cle(p),
                    forall|t: int| 0 <= t < j ==> #[trigger] cle(v[t]) <= cle(p),
                decreases i - j,
            {
                j = j + 1;
            }
            let enregistrement = self.pokemon.remove(i);
            self.pokemon.insert(j, enregistrement);
            proof {
                let prefixe = v.subrange(0, i as int);
                assert(forall|t: int| 0 <= t < j ==> prefixe[t] == v[t]);
                assert(forall|t: int| 0 <= t < j ==> #[trigger] cle(prefixe[t]) <= cle(p));
                assert(j < i ==> prefixe[j as int] == v[j as int]);
                assert(j < i ==> cle(p) < cle(prefixe[j as int]));
                lemma_inserer_position(cle, p, prefixe, j as int);
                assert(self.pokemon@.subrange(0, i + 1) =~= prefixe.subrange(0, j as int)
                    + seq![p] + prefixe.subrange(j as int, i as int));
                assert(forall|t: int| i <= t < s0.len() ==> v[t] == s0[t]) by {
                    assert(forall|t: int|
                        i <= t < s0.len() ==> v.subrange(i as int, s0.len() as int)[t - i]
                            == #[trigger] v[t]);
                    assert(forall|t: int|
                        i <= t < s0.len() ==> s0.subrange(i as int, s0.len() as int)[t - i]
                            == #[trigger] s0[t]);
                }
                assert(v[i as int] == s0[i as int]);
                assert(self.pokemon@.subrange(0, i + 1) == tri_prefixe(cle, s0, i + 1));
                assert(self.pokemon@.subrange(i + 1, s0.len() as int) =~= s0.subrange(
                    i + 1,
                    s0.len() as int,
                ));
            }
            i = i + 1;
        }
        proof {
            assert(self.pokemon@.subrange(0, s0.len() as int) =~= self.pokemon@);
            lemma_tri_prefixe_trie(cle, s0, s0.len() as int);
            lemma_tri_prefixe_len(cle, s0, s0.len() as int);
            assert forall|k: int| #[trigger] garde_cle(cle, k, self.pokemon@) == garde_cle(
                cle,
                k,
                s0,
            ) by {
                lemma_tri_prefixe_garde(cle, s0, s0.len() as int, k);
                assert(s0.subrange(0, s0.len() as int) =~= s0);
            }
        }
    }
}

} // verus!
