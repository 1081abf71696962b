//! Property-style checks on concrete values: the leveling rule, the
//! eligibility rule, the spawn, and the decimal/line rendering.
use elevage::pokemon::{nom_du_candidat, Genre, Pokemon, PokemonType};

fn pokemon(nom: &str, pokemon_type: PokemonType, genre: Genre) -> Pokemon {
    Pokemon::new(String::from(nom), pokemon_type, genre)
}

fn monte_au_niveau(p: &mut Pokemon, niveau: u32) {
    // Each full hundred of points is one level.
    while p.niveau < niveau {
        p.gagner_experience(100);
    }
    assert_eq!(p.niveau, niveau);
}

#[test]
fn experience_reste_sous_cent() {
    let mut p = pokemon("Pika", PokemonType::Electrik, Genre::Male);
    let doses: [u32; 7] = [0, 37, 99, 100, 250, 1, 63];
    for xp in doses {
        p.gagner_experience(xp);
        assert!(p.experience < 100);
    }
}

#[test]
fn niveau_ne_descend_jamais() {
    let mut p = pokemon("Pika", PokemonType::Electrik, Genre::Male);
    let mut precedent: u32 = p.niveau;
    let doses: [u32; 6] = [10, 0, 250, 99, 1, 500];
    for xp in doses {
        p.gagner_experience(xp);
        assert!(p.niveau >= precedent);
        precedent = p.niveau;
    }
}

#[test]
fn gain_exact_deux_cent_cinquante() {
    let mut p = pokemon("Pika", PokemonType::Electrik, Genre::Male);
    assert_eq!(p.niveau, 1);
    assert_eq!(p.experience, 0);
    let monte = p.gagner_experience(250);
    assert!(monte);
    assert_eq!(p.niveau, 3);
    assert_eq!(p.experience, 50);
}

#[test]
fn gain_sans_montee() {
    let mut p = pokemon("Pika", PokemonType::Electrik, Genre::Male);
    let monte = p.gagner_experience(99);
    assert!(!monte);
    assert_eq!(p.niveau, 1);
    assert_eq!(p.experience, 99);
    let monte = p.gagner_experience(1);
    assert!(monte);
    assert_eq!(p.niveau, 2);
    assert_eq!(p.experience, 0);
}

#[test]
fn compatibilite_symetrique() {
    let mut a = pokemon("Flamme", PokemonType::Feu, Genre::Male);
    let mut b = pokemon("Braise", PokemonType::Feu, Genre::Femelle);
    monte_au_niveau(&mut a, 6);
    monte_au_niveau(&mut b, 7);
    assert_eq!(a.peuvent_se_reproduire(&b), b.peuvent_se_reproduire(&a));
    assert!(a.peuvent_se_reproduire(&b));
    // An ineligible pair is ineligible read either way too.
    let c = pokemon("Goutte", PokemonType::Eau, Genre::Femelle);
    assert_eq!(a.peuvent_se_reproduire(&c), c.peuvent_se_reproduire(&a));
    assert!(!a.peuvent_se_reproduire(&c));
}

#[test]
fn jamais_compatible_avec_soi_meme() {
    let mut a = pokemon("Flamme", PokemonType::Feu, Genre::Male);
    monte_au_niveau(&mut a, 10);
    assert!(!a.peuvent_se_reproduire(&a));
}

#[test]
fn reproduction_suit_la_compatibilite() {
    let mut a = pokemon("Flamme", PokemonType::Feu, Genre::Male);
    let mut b = pokemon("Braise", PokemonType::Feu, Genre::Femelle);
    assert!(a.reproduire(&b).is_none()); // both below level five
    monte_au_niveau(&mut a, 6);
    monte_au_niveau(&mut b, 7);
    assert_eq!(a.reproduire(&b).is_some(), a.peuvent_se_reproduire(&b));
    assert!(a.reproduire(&b).is_some());
    // Same sex: never.
    let mut c = pokemon("Tison", PokemonType::Feu, Genre::Male);
    monte_au_niveau(&mut c, 9);
    assert!(a.reproduire(&c).is_none());
}

#[test]
fn bebe_a_les_valeurs_de_naissance() {
    let mut a = pokemon("Flamme", PokemonType::Feu, Genre::Male);
    let mut b = pokemon("Braise", PokemonType::Feu, Genre::Femelle);
    monte_au_niveau(&mut a, 6);
    monte_au_niveau(&mut b, 7);
    let bebe = a.reproduire(&b).expect("paire compatible");
    assert_eq!(bebe.niveau, 1);
    assert_eq!(bebe.experience, 0);
    assert_eq!(bebe.pokemon_type, PokemonType::Feu);
    assert!(bebe.genre == Genre::Male || bebe.genre == Genre::Femelle);
    let candidats = ["Babybulbe", "Poussin", "Flambi", "Aquali", "Sparkle", "Mystère"];
    assert!(candidats.contains(&bebe.nom.as_str()));
}

#[test]
fn tirages_fixes_donnent_un_bebe_fixe() {
    let mut a = pokemon("Flamme", PokemonType::Feu, Genre::Male);
    let mut b = pokemon("Braise", PokemonType::Feu, Genre::Femelle);
    monte_au_niveau(&mut a, 5);
    monte_au_niveau(&mut b, 5);
    let bebe = a
        .reproduire_avec_tirages(&b, Genre::Femelle, 2)
        .expect("paire compatible");
    assert_eq!(bebe.nom, "Flambi");
    assert_eq!(bebe.genre, Genre::Femelle);
    assert_eq!(bebe.niveau, 1);
    assert_eq!(bebe.experience, 0);
    assert_eq!(bebe.pokemon_type, PokemonType::Feu);
    // Ineligible pair: no record, whatever the draws.
    let c = pokemon("Goutte", PokemonType::Eau, Genre::Femelle);
    assert!(a.reproduire_avec_tirages(&c, Genre::Male, 0).is_none());
}

#[test]
fn noms_candidats_dans_l_ordre() {
    let attendus = ["Babybulbe", "Poussin", "Flambi", "Aquali", "Sparkle", "Mystère"];
    for (i, attendu) in attendus.iter().enumerate() {
        assert_eq!(nom_du_candidat(i), *attendu);
    }
}

#[test]
fn noms_d_affichage() {
    assert_eq!(PokemonType::Feu.nom_affichage(), "Feu");
    assert_eq!(PokemonType::Eau.nom_affichage(), "Eau");
    assert_eq!(PokemonType::Plante.nom_affichage(), "Plante");
    assert_eq!(PokemonType::Electrik.nom_affichage(), "Electrik");
    assert_eq!(PokemonType::Normal.nom_affichage(), "Normal");
    assert_eq!(Genre::Male.nom_affichage(), "Mâle");
    assert_eq!(Genre::Femelle.nom_affichage(), "Femelle");
}
