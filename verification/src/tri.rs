//! The model of the two sorts: a stable insertion sort over an integer key,
//! with its laws. A sorted record keeps every run of equal keys in its
//! original relative order, and sorting a second time changes nothing.
use vstd::prelude::*;

use crate::pokemon::{Pokemon, PokemonType};

verus! {

/// The key of the sort by level.
pub open spec fn cle_niveau() -> spec_fn(Pokemon) -> int {
    |p: Pokemon| p.niveau as int
}

/// The rank of each category in the alphabetical order of the display
/// strings: Eau, Electrik, Feu, Normal, Plante.
pub open spec fn rang_type(t: PokemonType) -> int {
    match t {
        PokemonType::Eau => 0,
        PokemonType::Electrik => 1,
        PokemonType::Feu => 2,
        PokemonType::Normal => 3,
        PokemonType::Plante => 4,
    }
}

/// The key of the sort by category display string.
pub open spec fn cle_type() -> spec_fn(Pokemon) -> int {
    |p: Pokemon| rang_type(p.pokemon_type)
}

/// Strict lexicographic order on character sequences, by code point.
pub open spec fn lex_inferieur(a: Seq<char>, b: Seq<char>) -> bool
    decreases a.len(),
{
    if b.len() == 0 {
        false
    } else if a.len() == 0 {
        true
    } else if a[0] != b[0] {
        (a[0] as int) < (b[0] as int)
    } else {
        lex_inferieur(a.drop_first(), b.drop_first())
    }
}

/// The category ranks order the categories exactly as the lexicographic
/// order of their display strings does: the sort by rank is the sort by
/// display string.
pub proof fn lemma_rang_suit_l_ordre_des_noms(t1: PokemonType, t2: PokemonType)
    ensures
        rang_type(t1) < rang_type(t2) <==> lex_inferieur(
            t1.nom_affichage_spec(),
            t2.nom_affichage_spec(),
        ),
{
    reveal_strlit("Feu");
    reveal_strlit("Eau");
    reveal_strlit("Plante");
    reveal_strlit("Electrik");
    reveal_strlit("Normal");
    reveal_with_fuel(lex_inferieur, 10);
}

/// The rank of a category, as executable code; it agrees with `rang_type`.
pub fn rang_affichage(t: PokemonType) -> (r: u8)
    ensures
        r as int == rang_type(t),
{
    match t {
        PokemonType::Eau => 0,
        PokemonType::Electrik => 1,
        PokemonType::Feu => 2,
        PokemonType::Normal => 3,
        PokemonType::Plante => 4,
    }
}

/// Non-decreasing keys.
pub open spec fn trie_par(cle: spec_fn(Pokemon) -> int, s: Seq<Pokemon>) -> bool {
    forall|i: int, j: int| 0 <= i < j < s.len() ==> #[trigger] cle(s[i]) <= #[trigger] cle(s[j])
}

/// The subsequence of the records whose key is `k`, in their order in `s`.
/// Two sequences with the same such subsequence for every `k` hold the same
/// records, and hold records of equal key in the same relative order.
pub open spec fn garde_cle(cle: spec_fn(Pokemon) -> int, k: int, s: Seq<Pokemon>) -> Seq<Pokemon>
    decreases s.len(),
{
    if s.len() == 0 {
        Seq::empty()
    } else if cle(s[0]) == k {
        seq![s[0]] + garde_cle(cle, k, s.drop_first())
    } else {
        garde_cle(cle, k, s.drop_first())
    }
}

/// Inserts `p` before the first record whose key is strictly greater. Among
/// equal keys the inserted record lands last, which is what stability asks
/// of a left-to-right insertion sort.
pub open spec fn inserer(cle: spec_fn(Pokemon) -> int, p: Pokemon, s: Seq<Pokemon>) -> Seq<
    Pokemon,
>
    decreases s.len(),
{
    if s.len() == 0 {
        seq![p]
    } else if cle(p) < cle(s[0]) {
        seq![p] + s
    } else {
        seq![s[0]] + inserer(cle, p, s.drop_first())
    }
}

/// The stable sort of the first `n` records, taken left to right.
pub open spec fn tri_prefixe(cle: spec_fn(Pokemon) -> int, s: Seq<Pokemon>, n: int) -> Seq<
    Pokemon,
>
    decreases n,
{
    if n <= 0 {
        Seq::empty()
    } else {
        inserer(cle, s[n - 1], tri_prefixe(cle, s, n - 1))
    }
}

/// The stable sort of a whole sequence by the given key.
pub open spec fn tri_stable(cle: spec_fn(Pokemon) -> int, s: Seq<Pokemon>) -> Seq<Pokemon> {
    tri_prefixe(cle, s, s.len() as int)
}

pub proof fn lemma_inserer_len(cle: spec_fn(Pokemon) -> int, p: Pokemon, s: Seq<Pokemon>)
    ensures
        inserer(cle, p, s).len() == s.len() + 1,
    decreases s.len(),
{
    if s.len() == 0 {
    } else if cle(p) < cle(s[0]) {
    } else {
        lemma_inserer_len(cle, p, s.drop_first());
    }
}

/// A lower bound on every key of `s` and on the key of `p` is a lower bound
/// on every key of the insertion.
proof fn lemma_inserer_minore(cle: spec_fn(Pokemon) -> int, p: Pokemon, s: Seq<Pokemon>, b: int)
    requires
        b <= cle(p),
        forall|i: int| 0 <= i < s.len() ==> b <= #[trigger] cle(s[i]),
    ensures
        forall|i: int|
            0 <= i < inserer(cle, p, s).len() ==> b <= #[trigger] cle(inserer(cle, p, s)[i]),
    decreases s.len(),
{
    let r = inserer(cle, p, s);
    if s.len() == 0 {
        assert forall|i: int| 0 <= i < r.len() implies b <= #[trigger] cle(r[i]) by {
            assert(r[i] == p);
        }
    } else if cle(p) < cle(s[0]) {
        assert forall|i: int| 0 <= i < r.len() implies b <= #[trigger] cle(r[i]) by {
            if i == 0 {
                assert(r[i] == p);
            } else {
                assert(r[i] == s[i - 1]);
            }
        }
    } else {
        let rest = s.drop_first();
        assert(forall|i: int| 0 <= i < rest.len() ==> b <= #[trigger] cle(rest[i])) by {
            assert(forall|i: int| 0 <= i < rest.len() ==> rest[i] == s[i + 1]);
        }
        lemma_inserer_minore(cle, p, rest, b);
        let ri = inserer(cle, p, rest);
        assert forall|i: int| 0 <= i < r.len() implies b <= #[trigger] cle(r[i]) by {
            if i == 0 {
                assert(r[i] == s[0]);
            } else {
                assert(r[i] == ri[i - 1]);
            }
        }
    }
}

/// Inserting into a sorted sequence keeps it sorted.
pub proof fn lemma_inserer_trie(cle: spec_fn(Pokemon) -> int, p: Pokemon, s: Seq<Pokemon>)
    requires
        trie_par(cle, s),
    ensures
        trie_par(cle, inserer(cle, p, s)),
    decreases s.len(),
{
    if s.len() == 0 {
    } else if cle(p) < cle(s[0]) {
        let r = inserer(cle, p, s);
        assert(r == seq![p] + s);
        assert forall|i: int, j: int| 0 <= i < j < r.len() implies #[trigger] cle(r[i])
            <= #[trigger] cle(r[j]) by {
            if i == 0 {
                assert(r[j] == s[j - 1]);
                if j > 1 {
                    assert(cle(s[0]) <= cle(s[j - 1]));
                }
            } else {
                assert(r[i] == s[i - 1] && r[j] == s[j - 1]);
            }
        }
    } else {
        let rest = s.drop_first();
        assert(trie_par(cle, rest)) by {
            assert(forall|i: int| 0 <= i < rest.len() ==> rest[i] == s[i + 1]);
        }
        lemma_inserer_trie(cle, p, rest);
        assert(forall|i: int| 0 <= i < rest.len() ==> cle(s[0]) <= #[trigger] cle(rest[i])) by {
            assert(forall|i: int| 0 <= i < rest.len() ==> rest[i] == s[i + 1]);
        }
        lemma_inserer_minore(cle, p, rest, cle(s[0]));
        let r = inserer(cle, p, s);
        let ri = inserer(cle, p, rest);
        assert(r == seq![s[0]] + ri);
        assert forall|i: int, j: int| 0 <= i < j < r.len() implies #[trigger] cle(r[i])
            <= #[trigger] cle(r[j]) by {
            if i == 0 {
                assert(r[j] == ri[j - 1]);
            } else {
                assert(r[i] == ri[i - 1] && r[j] == ri[j - 1]);
            }
        }
    }
}

/// The per-key subsequence splits over concatenation.
proof fn lemma_garde_concat(cle: spec_fn(Pokemon) -> int, k: int, a: Seq<Pokemon>, b: Seq<Pokemon>)
    ensures
        garde_cle(cle, k, a + b) == garde_cle(cle, k, a) + garde_cle(cle, k, b),
    decreases a.len(),
{
    if a.len() == 0 {
        assert(a + b =~= b);
        assert(garde_cle(cle, k, a) + garde_cle(cle, k, b) =~= garde_cle(cle, k, b));
    } else {
        assert((a + b).drop_first() =~= a.drop_first() + b);
        assert((a + b)[0] == a[0]);
        lemma_garde_concat(cle, k, a.drop_first(), b);
        if cle(a[0]) == k {
            assert(seq![a[0]] + (garde_cle(cle, k, a.drop_first()) + garde_cle(cle, k, b)) =~= (
            seq![a[0]] + garde_cle(cle, k, a.drop_first())) + garde_cle(cle, k, b));
        }
    }
}

/// The per-key subsequence of a single record.
proof fn lemma_garde_singleton(cle: spec_fn(Pokemon) -> int, k: int, p: Pokemon)
    ensures
        garde_cle(cle, k, seq![p]) == if cle(p) == k {
            seq![p]
        } else {
            Seq::<Pokemon>::empty()
        },
{
    assert(seq![p].drop_first() =~= Seq::<Pokemon>::empty());
    assert(garde_cle(cle, k, Seq::<Pokemon>::empty()) == Seq::<Pokemon>::empty());
    if cle(p) == k {
        assert(garde_cle(cle, k, seq![p]) =~= seq![p]);
    }
}

/// A sequence in which no key is `k` has an empty per-key subsequence.
proof fn lemma_garde_vide(cle: spec_fn(Pokemon) -> int, k: int, s: Seq<Pokemon>)
    requires
        forall|i: int| 0 <= i < s.len() ==> #[trigger] cle(s[i]) != k,
    ensures
        garde_cle(cle, k, s) == Seq::<Pokemon>::empty(),
    decreases s.len(),
{
    if s.len() == 0 {
    } else {
        let rest = s.drop_first();
        assert(forall|i: int| 0 <= i < rest.len() ==> #[trigger] cle(rest[i]) != k) by {
            assert(forall|i: int| 0 <= i < rest.len() ==> rest[i] == s[i + 1]);
        }
        lemma_garde_vide(cle, k, rest);
    }
}

/// Inserting into a sorted sequence appends the new record at the end of its
/// key's subsequence and leaves every other key's subsequence alone: the
/// insertion is stable.
pub proof fn lemma_inserer_garde(
    cle: spec_fn(Pokemon) -> int,
    p: Pokemon,
    s: Seq<Pokemon>,
    k: int,
)
    requires
        trie_par(cle, s),
    ensures
        garde_cle(cle, k, inserer(cle, p, s)) == if cle(p) == k {
            garde_cle(cle, k, s).push(p)
        } else {
            garde_cle(cle, k, s)
        },
    decreases s.len(),
{
    if s.len() == 0 {
        lemma_garde_singleton(cle, k, p);
        if cle(p) == k {
            assert(garde_cle(cle, k, inserer(cle, p, s)) =~= garde_cle(cle, k, s).push(p));
        }
    } else if cle(p) < cle(s[0]) {
        lemma_garde_concat(cle, k, seq![p], s);
        assert(inserer(cle, p, s) == seq![p] + s);
        lemma_garde_singleton(cle, k, p);
        if cle(p) == k {
            assert(forall|i: int| 0 <= i < s.len() ==> #[trigger] cle(s[i]) != k) by {
                assert(forall|i: int| 0 < i < s.len() ==> cle(s[0]) <= #[trigger] cle(s[i]));
            }
            lemma_garde_vide(cle, k, s);
            assert(garde_cle(cle, k, seq![p] + s) =~= garde_cle(cle, k, s).push(p));
        } else {
            assert(garde_cle(cle, k, seq![p] + s) =~= garde_cle(cle, k, s));
        }
    } else {
        let rest = s.drop_first();
        assert(trie_par(cle, rest)) by {
            assert(forall|i: int| 0 <= i < rest.len() ==> rest[i] == s[i + 1]);
        }
        lemma_inserer_garde(cle, p, rest, k);
        assert(inserer(cle, p, s) == seq![s[0]] + inserer(cle, p, rest));
        lemma_garde_concat(cle, k, seq![s[0]], inserer(cle, p, rest));
        assert(s =~= seq![s[0]] + rest);
        lemma_garde_concat(cle, k, seq![s[0]], rest);
        lemma_garde_singleton(cle, k, s[0]);
        if cle(p) == k {
            assert(garde_cle(cle, k, seq![s[0]]) + garde_cle(cle, k, rest).push(p) =~= (garde_cle(
                cle,
                k,
                seq![s[0]],
            ) + garde_cle(cle, k, rest)).push(p));
        }
    }
}

/// Where the scan of an insertion sort stops is where the model inserts.
pub proof fn lemma_inserer_position(
    cle: spec_fn(Pokemon) -> int,
    p: Pokemon,
    s: Seq<Pokemon>,
    j: int,
)
    requires
        0 <= j <= s.len(),
        forall|i: int| 0 <= i < j ==> #[trigger] cle(s[i]) <= cle(p),
        j < s.len() ==> cle(p) < cle(s[j]),
    ensures
        inserer(cle, p, s) == s.subrange(0, j) + seq![p] + s.subrange(j, s.len() as int),
    decreases j,
{
    if j == 0 {
        if s.len() == 0 {
            assert(inserer(cle, p, s) =~= s.subrange(0, 0) + seq![p] + s.subrange(0, 0));
        } else {
            assert(inserer(cle, p, s) == seq![p] + s);
            assert(seq![p] + s =~= s.subrange(0, 0) + seq![p] + s.subrange(0, s.len() as int));
        }
    } else {
        let rest = s.drop_first();
        assert(forall|i: int| 0 <= i < j - 1 ==> #[trigger] cle(rest[i]) <= cle(p)) by {
            assert(forall|i: int| 0 <= i < rest.len() ==> rest[i] == s[i + 1]);
        }
        assert(j - 1 < rest.len() ==> cle(p) < cle(rest[j - 1]));
        lemma_inserer_position(cle, p, rest, j - 1);
        assert(inserer(cle, p, s) == seq![s[0]] + inserer(cle, p, rest));
        assert(seq![s[0]] + (rest.subrange(0, j - 1) + seq![p] + rest.subrange(
            j - 1,
            rest.len() as int,
        )) =~= s.subrange(0, j) + seq![p] + s.subrange(j, s.len() as int));
    }
}

pub proof fn lemma_tri_prefixe_len(cle: spec_fn(Pokemon) -> int, s: Seq<Pokemon>, n: int)
    requires
        0 <= n <= s.len(),
    ensures
        tri_prefixe(cle, s, n).len() == n,
    decreases n,
{
    if n > 0 {
        lemma_tri_prefixe_len(cle, s, n - 1);
        lemma_inserer_len(cle, s[n - 1], tri_prefixe(cle, s, n - 1));
    }
}

pub proof fn lemma_tri_prefixe_trie(cle: spec_fn(Pokemon) -> int, s: Seq<Pokemon>, n: int)
    requires
        0 <= n <= s.len(),
    ensures
        trie_par(cle, tri_prefixe(cle, s, n)),
    decreases n,
{
    if n > 0 {
        lemma_tri_prefixe_trie(cle, s, n - 1);
        lemma_inserer_trie(cle, s[n - 1], tri_prefixe(cle, s, n - 1));
    }
}

/// The sort keeps, for every key, exactly the subsequence the input had:
/// it is a permutation, and a stable one.
pub proof fn lemma_tri_prefixe_garde(cle: spec_fn(Pokemon) -> int, s: Seq<Pokemon>, n: int, k: int)
    requires
        0 <= n <= s.len(),
    ensures
        garde_cle(cle, k, tri_prefixe(cle, s, n)) == garde_cle(cle, k, s.subrange(0, n)),
    decreases n,
{
    if n == 0 {
        assert(s.subrange(0, 0) =~= Seq::<Pokemon>::empty());
    } else {
        let t = tri_prefixe(cle, s, n - 1);
        lemma_tri_prefixe_trie(cle, s, n - 1);
        lemma_tri_prefixe_garde(cle, s, n - 1, k);
        lemma_inserer_garde(cle, s[n - 1], t, k);
        assert(s.subrange(0, n) =~= s.subrange(0, n - 1) + seq![s[n - 1]]);
        lemma_garde_concat(cle, k, s.subrange(0, n - 1), seq![s[n - 1]]);
        lemma_garde_singleton(cle, k, s[n - 1]);
        if cle(s[n - 1]) == k {
            assert(garde_cle(cle, k, s.subrange(0, n - 1)).push(s[n - 1]) =~= garde_cle(
                cle,
                k,
                s.subrange(0, n - 1),
            ) + seq![s[n - 1]]);
        } else {
            assert(garde_cle(cle, k, seq![s[n - 1]]) =~= Seq::<Pokemon>::empty());
            assert(garde_cle(cle, k, s.subrange(0, n - 1)) + Seq::<Pokemon>::empty() =~= garde_cle(
                cle,
                k,
                s.subrange(0, n - 1),
            ));
        }
    }
}

/// A record whose key is no smaller than every key of `s` is inserted at the
/// very end.
proof fn lemma_inserer_a_la_fin(cle: spec_fn(Pokemon) -> int, p: Pokemon, s: Seq<Pokemon>)
    requires
        forall|i: int| 0 <= i < s.len() ==> #[trigger] cle(s[i]) <= cle(p),
    ensures
        inserer(cle, p, s) == s.push(p),
    decreases s.len(),
{
    if s.len() == 0 {
        assert(inserer(cle, p, s) =~= s.push(p));
    } else {
        let rest = s.drop_first();
        assert(forall|i: int| 0 <= i < rest.len() ==> #[trigger] cle(rest[i]) <= cle(p)) by {
            assert(forall|i: int| 0 <= i < rest.len() ==> rest[i] == s[i + 1]);
        }
        lemma_inserer_a_la_fin(cle, p, rest);
        assert(seq![s[0]] + rest.push(p) =~= s.push(p));
    }
}

proof fn lemma_tri_prefixe_deja_trie(cle: spec_fn(Pokemon) -> int, s: Seq<Pokemon>, n: int)
    requires
        trie_par(cle, s),
        0 <= n <= s.len(),
    ensures
        tri_prefixe(cle, s, n) == s.subrange(0, n),
    decreases n,
{
    if n == 0 {
        assert(s.subrange(0, 0) =~= Seq::<Pokemon>::empty());
    } else {
        lemma_tri_prefixe_deja_trie(cle, s, n - 1);
        assert(forall|i: int|
            0 <= i < s.subrange(0, n - 1).len() ==> #[trigger] cle(s.subrange(0, n - 1)[i]) <= cle(
                s[n - 1],
            ));
        lemma_inserer_a_la_fin(cle, s[n - 1], s.subrange(0, n - 1));
        assert(s.subrange(0, n - 1).push(s[n - 1]) =~= s.subrange(0, n));
    }
}

/// A sequence that is already sorted is left exactly as it stands.
pub proof fn lemma_tri_deja_trie(cle: spec_fn(Pokemon) -> int, s: Seq<Pokemon>)
    requires
        trie_par(cle, s),
    ensures
        tri_stable(cle, s) == s,
{
    lemma_tri_prefixe_deja_trie(cle, s, s.len() as int);
    assert(s.subrange(0, s.len() as int) =~= s);
}

/// Sorting twice is the same as sorting once.
pub proof fn lemma_tri_stable_idempotent(cle: spec_fn(Pokemon) -> int, s: Seq<Pokemon>)
    ensures
        tri_stable(cle, tri_stable(cle, s)) == tri_stable(cle, s),
{
    let t = tri_stable(cle, s);
    lemma_tri_prefixe_trie(cle, s, s.len() as int);
    lemma_tri_prefixe_len(cle, s, s.len() as int);
    lemma_tri_deja_trie(cle, t);
}

} // verus!
