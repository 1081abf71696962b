//! The persisted text form: one line per record, fields joined by `;` in
//! the order name, level, category display string, experience, sex display
//! string. The split model and the round-trip law live here too: splitting
//! a written line on the delimiter gives the five fields back, as long as
//! the name itself is free of the delimiter (the format does not escape it).
use vstd::prelude::*;

use crate::pokemon::{Genre, Pokemon, PokemonType};
use vstd::string::StringExecFns;

verus! {

/// The decimal digit characters.
pub open spec fn car_chiffre(d: nat) -> char {
    if d == 0 {
        '0'
    } else if d == 1 {
        '1'
    } else if d == 2 {
        '2'
    } else if d == 3 {
        '3'
    } else if d == 4 {
        '4'
    } else if d == 5 {
        '5'
    } else if d == 6 {
        '6'
    } else if d == 7 {
        '7'
    } else if d == 8 {
        '8'
    } else {
        '9'
    }
}

pub open spec fn est_chiffre(c: char) -> bool {
    c == '0' || c == '1' || c == '2' || c == '3' || c == '4' || c == '5' || c == '6' || c == '7'
        || c == '8' || c == '9'
}

pub open spec fn val_chiffre(c: char) -> nat {
    if c == '0' {
        0
    } else if c == '1' {
        1
    } else if c == '2' {
        2
    } else if c == '3' {
        3
    } else if c == '4' {
        4
    } else if c == '5' {
        5
    } else if c == '6' {
        6
    } else if c == '7' {
        7
    } else if c == '8' {
        8
    } else {
        9
    }
}

/// The usual decimal writing of a number, most significant digit first,
/// without leading zeroes (a single zero for zero itself).
pub open spec fn rep_decimale(n: nat) -> Seq<char>
    decreases n,
{
    if n < 10 {
        seq![car_chiffre(n)]
    } else {
        rep_decimale(n / 10) + seq![car_chiffre(n % 10)]
    }
}

/// The number a sequence of digit characters denotes.
pub open spec fn val_decimale(s: Seq<char>) -> nat
    decreases s.len(),
{
    if s.len() == 0 {
        0
    } else {
        val_decimale(s.drop_last()) * 10 + val_chiffre(s.last())
    }
}

/// Every character of a decimal writing is a digit — in particular none is
/// the field delimiter.
pub proof fn lemma_rep_decimale_chiffres(n: nat)
    ensures
        forall|i: int| 0 <= i < rep_decimale(n).len() ==> est_chiffre(#[trigger] rep_decimale(n)[i]),
    decreases n,
{
    if n < 10 {
    } else {
        lemma_rep_decimale_chiffres(n / 10);
        let r = rep_decimale(n);
        let tete = rep_decimale(n / 10);
        assert forall|i: int| 0 <= i < r.len() implies est_chiffre(#[trigger] r[i]) by {
            if i < tete.len() {
                assert(r[i] == tete[i]);
            } else {
                assert(r[i] == car_chiffre(n % 10));
            }
        }
    }
}

/// Reading a decimal writing back gives the number it was written from.
pub proof fn lemma_val_rep_decimale(n: nat)
    ensures
        val_decimale(rep_decimale(n)) == n,
    decreases n,
{
    if n < 10 {
        assert(seq![car_chiffre(n)].drop_last() =~= Seq::<char>::empty());
        assert(val_decimale(Seq::<char>::empty()) == 0);
        assert(seq![car_chiffre(n)].last() == car_chiffre(n));
        assert(val_chiffre(car_chiffre(n)) == n);
        assert(val_decimale(rep_decimale(n)) == 0 * 10 + val_chiffre(car_chiffre(n)));
    } else {
        lemma_val_rep_decimale(n / 10);
        let r = rep_decimale(n);
        assert(r.drop_last() =~= rep_decimale(n / 10));
        assert(r.last() == car_chiffre(n % 10));
        assert(val_chiffre(car_chiffre(n % 10)) == n % 10);
        assert(val_decimale(r) == val_decimale(rep_decimale(n / 10)) * 10 + val_chiffre(
            car_chiffre(n % 10),
        ));
        vstd::arithmetic::div_mod::lemma_fundamental_div_mod(n as int, 10);
    }
}

/// The decimal digit at a given value, as executable text.
fn chiffre_en_texte(d: u32) -> (r: &'static str)
    requires
        d < 10,
    ensures
        r@ == seq![car_chiffre(d as nat)],
{
    proof {
        reveal_strlit("0");
        reveal_strlit("1");
        reveal_strlit("2");
        reveal_strlit("3");
        reveal_strlit("4");
        reveal_strlit("5");
        reveal_strlit("6");
        reveal_strlit("7");
        reveal_strlit("8");
        reveal_strlit("9");
    }
    match d {
        0 => {
            proof {
                assert("0"@ =~= seq![car_chiffre(0)]);
            }
            "0"
        },
        1 => {
            proof {
                assert("1"@ =~= seq![car_chiffre(1)]);
            }
            "1"
        },
        2 => {
            proof {
                assert("2"@ =~= seq![car_chiffre(2)]);
            }
            "2"
        },
        3 => {
            proof {
                assert("3"@ =~= seq![car_chiffre(3)]);
            }
            "3"
        },
        4 => {
            proof {
                assert("4"@ =~= seq![car_chiffre(4)]);
            }
            "4"
        },
        5 => {
            proof {
                assert("5"@ =~= seq![car_chiffre(5)]);
            }
            "5"
        },
        6 => {
            proof {
                assert("6"@ =~= seq![car_chiffre(6)]);
            }
            "6"
        },
        7 => {
            proof {
                assert("7"@ =~= seq![car_chiffre(7)]);
            }
            "7"
        },
        8 => {
            proof {
                assert("8"@ =~= seq![car_chiffre(8)]);
            }
            "8"
        },
        _ => {
            proof {
                assert("9"@ =~= seq![car_chiffre(9)]);
            }
            "9"
        },
    }
}

/// The decimal writing of a number, as an owned string.
pub fn u32_vers_chaine(n: u32) -> (r: String)
    ensures
        r@ == rep_decimale(n as nat),
    decreases n,
{
    if n < 10 {
        chiffre_en_texte(n).to_owned()
    } else {
        let tete = u32_vers_chaine(n / 10);
        tete.concat(chiffre_en_texte(n % 10))
    }
}

/// One persisted line, without its terminating newline.
pub open spec fn ligne_pokemon(p: Pokemon) -> Seq<char> {
    p.nom@ + seq![';'] + rep_decimale(p.niveau as nat) + seq![';']
        + p.pokemon_type.nom_affichage_spec() + seq![';'] + rep_decimale(p.experience as nat)
        + seq![';'] + p.genre.nom_affichage_spec()
}

/// Builds one persisted line for a record.
pub fn formater_ligne(p: &Pokemon) -> (r: String)
    ensures
        r@ == ligne_pokemon(*p),
{
    let mut s = p.nom.clone();
    s.append(";");
    let niveau = u32_vers_chaine(p.niveau);
    s.append(niveau.as_str());
    s.append(";");
    s.append(p.pokemon_type.nom_affichage());
    s.append(";");
    let experience = u32_vers_chaine(p.experience);
    s.append(experience.as_str());
    s.append(";");
    s.append(p.genre.nom_affichage());
    proof {
        reveal_strlit(";");
        assert(";"@ =~= seq![';']);
        assert(s@ =~= ligne_pokemon(*p));
    }
    s
}

/// The whole persisted file: each record's line followed by a newline.
pub open spec fn serialisation(s: Seq<Pokemon>) -> Seq<char>
    decreases s.len(),
{
    if s.len() == 0 {
        Seq::empty()
    } else {
        serialisation(s.drop_last()) + ligne_pokemon(s.last()) + seq!['\n']
    }
}

/// Whether no character of `s` is `c`.
pub open spec fn sans_car(c: char, s: Seq<char>) -> bool {
    forall|i: int| 0 <= i < s.len() ==> #[trigger] s[i] != c
}

/// Splitting a sequence of characters on a separator: the pieces in order,
/// with empty pieces kept (one more piece than separators).
pub open spec fn decouper(sep: char, s: Seq<char>) -> Seq<Seq<char>>
    decreases s.len(),
{
    if s.len() == 0 {
        seq![Seq::<char>::empty()]
    } else if s[0] == sep {
        seq![Seq::<char>::empty()] + decouper(sep, s.drop_first())
    } else {
        let reste = decouper(sep, s.drop_first());
        seq![seq![s[0]] + reste[0]] + reste.drop_first()
    }
}

proof fn lemma_decouper_non_vide(sep: char, s: Seq<char>)
    ensures
        decouper(sep, s).len() >= 1,
    decreases s.len(),
{
    if s.len() == 0 {
    } else {
        lemma_decouper_non_vide(sep, s.drop_first());
    }
}

/// A separator-free sequence is a single piece.
proof fn lemma_decouper_sans_separateur(sep: char, s: Seq<char>)
    requires
        sans_car(sep, s),
    ensures
        decouper(sep, s) == seq![s],
    decreases s.len(),
{
    if s.len() == 0 {
        assert(decouper(sep, s) =~~= seq![s]);
    } else {
        let reste = s.drop_first();
        assert(sans_car(sep, reste)) by {
            assert(forall|i: int| 0 <= i < reste.len() ==> reste[i] == s[i + 1]);
        }
        lemma_decouper_sans_separateur(sep, reste);
        assert(seq![s[0]] + reste =~= s);
        assert(decouper(sep, s) =~~= seq![s]);
    }
}

/// Splitting a separator-free prefix, the separator, and a tail gives the
/// prefix as the first piece and the split of the tail after it.
proof fn lemma_decouper_concat(sep: char, a: Seq<char>, b: Seq<char>)
    requires
        sans_car(sep, a),
    ensures
        decouper(sep, a + seq![sep] + b) == seq![a] + decouper(sep, b),
    decreases a.len(),
{
    let s = a + seq![sep] + b;
    if a.len() == 0 {
        assert(s[0] == sep);
        assert(s.drop_first() =~= b);
        assert(decouper(sep, s) =~~= seq![a] + decouper(sep, b));
    } else {
        assert(s[0] == a[0]);
        assert(s[0] != sep);
        let ar = a.drop_first();
        assert(sans_car(sep, ar)) by {
            assert(forall|i: int| 0 <= i < ar.len() ==> ar[i] == a[i + 1]);
        }
        lemma_decouper_concat(sep, ar, b);
        assert(s.drop_first() =~= ar + seq![sep] + b);
        let reste = decouper(sep, s.drop_first());
        assert(reste == seq![ar] + decouper(sep, b));
        lemma_decouper_non_vide(sep, b);
        assert(reste[0] == ar);
        assert(seq![s[0]] + ar =~= a);
        assert(reste.drop_first() =~= decouper(sep, b));
        assert(decouper(sep, s) =~~= seq![a] + decouper(sep, b));
    }
}

/// No category display string holds the field delimiter or a newline.
proof fn lemma_nom_type_sans_separateur(t: PokemonType)
    ensures
        sans_car(';', t.nom_affichage_spec()),
        sans_car('\n', t.nom_affichage_spec()),
{
    reveal_strlit("Feu");
    reveal_strlit("Eau");
    reveal_strlit("Plante");
    reveal_strlit("Electrik");
    reveal_strlit("Normal");
}

/// No sex display string holds the field delimiter or a newline.
proof fn lemma_nom_genre_sans_separateur(g: Genre)
    ensures
        sans_car(';', g.nom_affichage_spec()),
        sans_car('\n', g.nom_affichage_spec()),
{
    reveal_strlit("Mâle");
    reveal_strlit("Femelle");
}

/// Digits are neither the field delimiter nor a newline.
proof fn lemma_rep_decimale_sans_separateur(n: nat)
    ensures
        sans_car(';', rep_decimale(n)),
        sans_car('\n', rep_decimale(n)),
{
    lemma_rep_decimale_chiffres(n);
}

proof fn lemma_sans_car_concat(c: char, a: Seq<char>, b: Seq<char>)
    requires
        sans_car(c, a),
        sans_car(c, b),
    ensures
        sans_car(c, a + b),
{
    assert forall|i: int| 0 <= i < (a + b).len() implies (a + b)[i] != c by {
        if i < a.len() {
            assert((a + b)[i] == a[i]);
        } else {
            assert((a + b)[i] == b[i - a.len()]);
        }
    }
}

/// A persisted line holds no newline as long as the name holds none: every
/// other field is made of digits, display letters or the delimiter.
proof fn lemma_ligne_sans_nouvelle_ligne(p: Pokemon)
    requires
        sans_car('\n', p.nom@),
    ensures
        sans_car('\n', ligne_pokemon(p)),
{
    lemma_rep_decimale_sans_separateur(p.niveau as nat);
    lemma_rep_decimale_sans_separateur(p.experience as nat);
    lemma_nom_type_sans_separateur(p.pokemon_type);
    lemma_nom_genre_sans_separateur(p.genre);
    assert(sans_car('\n', seq![';']));
    lemma_sans_car_concat('\n', p.nom@, seq![';']);
    lemma_sans_car_concat('\n', p.nom@ + seq![';'], rep_decimale(p.niveau as nat));
    lemma_sans_car_concat('\n', p.nom@ + seq![';'] + rep_decimale(p.niveau as nat), seq![';']);
    lemma_sans_car_concat(
        '\n',
        p.nom@ + seq![';'] + rep_decimale(p.niveau as nat) + seq![';'],
        p.pokemon_type.nom_affichage_spec(),
    );
    lemma_sans_car_concat(
        '\n',
        p.nom@ + seq![';'] + rep_decimale(p.niveau as nat) + seq![';']
            + p.pokemon_type.nom_affichage_spec(),
        seq![';'],
    );
    lemma_sans_car_concat(
        '\n',
        p.nom@ + seq![';'] + rep_decimale(p.niveau as nat) + seq![';']
            + p.pokemon_type.nom_affichage_spec() + seq![';'],
        rep_decimale(p.experience as nat),
    );
    lemma_sans_car_concat(
        '\n',
        p.nom@ + seq![';'] + rep_decimale(p.niveau as nat) + seq![';']
            + p.pokemon_type.nom_affichage_spec() + seq![';'] + rep_decimale(
            p.experience as nat,
        ),
        seq![';'],
    );
    lemma_sans_car_concat(
        '\n',
        p.nom@ + seq![';'] + rep_decimale(p.niveau as nat) + seq![';']
            + p.pokemon_type.nom_affichage_spec() + seq![';'] + rep_decimale(p.experience as nat)
            + seq![';'],
        p.genre.nom_affichage_spec(),
    );
}

/// The round trip of one line: splitting a persisted line on the delimiter
/// gives exactly five fields — the name, the decimal writing of the level,
/// the category display string, the decimal writing of the experience, and
/// the sex display string — and the two numeric fields read back to the
/// values they were written from. The name must be free of the delimiter:
/// the format does not escape it.
pub proof fn lemma_ligne_aller_retour(p: Pokemon)
    requires
        sans_car(';', p.nom@),
    ensures
        decouper(';', ligne_pokemon(p)) == seq![
            p.nom@,
            rep_decimale(p.niveau as nat),
            p.pokemon_type.nom_affichage_spec(),
            rep_decimale(p.experience as nat),
            p.genre.nom_affichage_spec(),
        ],
        val_decimale(decouper(';', ligne_pokemon(p))[1]) == p.niveau,
        val_decimale(decouper(';', ligne_pokemon(p))[3]) == p.experience,
{
    let a0 = p.nom@;
    let a1 = rep_decimale(p.niveau as nat);
    let a2 = p.pokemon_type.nom_affichage_spec();
    let a3 = rep_decimale(p.experience as nat);
    let a4 = p.genre.nom_affichage_spec();
    lemma_rep_decimale_sans_separateur(p.niveau as nat);
    lemma_rep_decimale_sans_separateur(p.experience as nat);
    lemma_nom_type_sans_separateur(p.pokemon_type);
    lemma_nom_genre_sans_separateur(p.genre);
    let queue3 = a3 + seq![';'] + a4;
    let queue2 = a2 + seq![';'] + queue3;
    let queue1 = a1 + seq![';'] + queue2;
    assert(ligne_pokemon(p) =~= a0 + seq![';'] + queue1);
    lemma_decouper_concat(';', a0, queue1);
    lemma_decouper_concat(';', a1, queue2);
    lemma_decouper_concat(';', a2, queue3);
    lemma_decouper_concat(';', a3, a4);
    lemma_decouper_sans_separateur(';', a4);
    assert(decouper(';', ligne_pokemon(p)) =~~= seq![a0, a1, a2, a3, a4]);
    lemma_val_rep_decimale(p.niveau as nat);
    lemma_val_rep_decimale(p.experience as nat);
}

/// The persisted text can also be read from the front: the first record's
/// line, a newline, then the text of the remaining records.
proof fn lemma_serialisation_en_avant(s: Seq<Pokemon>)
    requires
        s.len() > 0,
    ensures
        serialisation(s) == ligne_pokemon(s[0]) + seq!['\n'] + serialisation(s.drop_first()),
    decreases s.len(),
{
    if s.len() == 1 {
        assert(s.drop_last() =~= Seq::<Pokemon>::empty());
        assert(serialisation(Seq::<Pokemon>::empty()) == Seq::<char>::empty());
        assert(s.drop_first() =~= Seq::<Pokemon>::empty());
        assert(s.last() == s[0]);
        assert(serialisation(s) =~= ligne_pokemon(s[0]) + seq!['\n'] + serialisation(
            s.drop_first(),
        ));
    } else {
        let debut = s.drop_last();
        let queue = s.drop_first();
        lemma_serialisation_en_avant(debut);
        assert(debut[0] == s[0]);
        assert(debut.drop_first() =~= queue.drop_last());
        assert(queue.last() == s.last());
        assert(serialisation(s) =~= ligne_pokemon(s[0]) + seq!['\n'] + serialisation(queue));
    }
}

/// The round trip of the whole persisted text: splitting it on newlines
/// gives each record's line in order, then one empty piece from the final
/// newline. Names must be free of newlines: the format does not escape
/// them.
pub proof fn lemma_sauvegarde_aller_retour(s: Seq<Pokemon>)
    requires
        forall|j: int| 0 <= j < s.len() ==> sans_car('\n', #[trigger] s[j].nom@),
    ensures
        decouper('\n', serialisation(s)) == s.map_values(|p: Pokemon| ligne_pokemon(p)).push(
            Seq::<char>::empty(),
        ),
    decreases s.len(),
{
    let lignes = s.map_values(|p: Pokemon| ligne_pokemon(p));
    if s.len() == 0 {
        assert(decouper('\n', serialisation(s)) =~~= lignes.push(Seq::<char>::empty()));
    } else {
        let queue = s.drop_first();
        lemma_serialisation_en_avant(s);
        lemma_ligne_sans_nouvelle_ligne(s[0]);
        lemma_decouper_concat('\n', ligne_pokemon(s[0]), serialisation(queue));
        assert(forall|j: int| 0 <= j < queue.len() ==> sans_car('\n', #[trigger] queue[j].nom@))
            by {
            assert(forall|j: int| 0 <= j < queue.len() ==> queue[j] == s[j + 1]);
        }
        lemma_sauvegarde_aller_retour(queue);
        assert(decouper('\n', serialisation(s)) =~~= lignes.push(Seq::<char>::empty()));
    }
}

} // verus!
