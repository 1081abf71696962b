//! Checks of the collection manager: training in bulk, spawn attempts by
//! position, the two stable sorts, and the persisted text round trip.
use elevage::gestion::Elevage;
use elevage::pokemon::{Genre, Pokemon, PokemonType};
use elevage::texte::u32_vers_chaine;

fn pokemon(nom: &str, pokemon_type: PokemonType, genre: Genre) -> Pokemon {
    Pokemon::new(String::from(nom), pokemon_type, genre)
}

fn pokemon_au_niveau(
    nom: &str,
    pokemon_type: PokemonType,
    genre: Genre,
    niveau: u32,
) -> Pokemon {
    let mut p = pokemon(nom, pokemon_type, genre);
    while p.niveau < niveau {
        p.gagner_experience(100);
    }
    p
}

fn niveaux(e: &Elevage) -> Vec<u32> {
    (0..e.nombre_de_pokemon()).map(|i| e.pokemon_a(i).niveau).collect()
}

fn noms(e: &Elevage) -> Vec<String> {
    (0..e.nombre_de_pokemon()).map(|i| e.pokemon_a(i).nom.clone()).collect()
}

#[test]
fn entrainer_tous_donne_niveau_trois() {
    let mut e = Elevage::new();
    e.ajouter_pokemon(pokemon("Pika", PokemonType::Electrik, Genre::Male));
    e.entrainer_tous_les_pokemon(250);
    assert_eq!(e.pokemon_a(0).niveau, 3);
    assert_eq!(e.pokemon_a(0).experience, 50);
}

#[test]
fn entrainer_tous_traite_chacun() {
    let mut e = Elevage::new();
    e.ajouter_pokemon(pokemon("Pika", PokemonType::Electrik, Genre::Male));
    e.ajouter_pokemon(pokemon("Sala", PokemonType::Feu, Genre::Femelle));
    e.entrainer_tous_les_pokemon(120);
    assert_eq!(e.pokemon_a(0).niveau, 2);
    assert_eq!(e.pokemon_a(0).experience, 20);
    assert_eq!(e.pokemon_a(1).niveau, 2);
    assert_eq!(e.pokemon_a(1).experience, 20);
}

#[test]
fn reproduction_reussie_ajoute_un_bebe() {
    let mut e = Elevage::new();
    e.ajouter_pokemon(pokemon_au_niveau("Flamme", PokemonType::Feu, Genre::Male, 6));
    e.ajouter_pokemon(pokemon_au_niveau("Braise", PokemonType::Feu, Genre::Femelle, 7));
    assert_eq!(e.nombre_de_pokemon(), 2);
    assert!(e.tenter_reproduction(0, 1));
    assert_eq!(e.nombre_de_pokemon(), 3);
    let bebe = e.pokemon_a(2);
    assert_eq!(bebe.pokemon_type, PokemonType::Feu);
    assert_eq!(bebe.niveau, 1);
    assert_eq!(bebe.experience, 0);
    assert!(bebe.genre == Genre::Male || bebe.genre == Genre::Femelle);
}

#[test]
fn reproduction_echoue_sur_types_differents() {
    let mut e = Elevage::new();
    e.ajouter_pokemon(pokemon_au_niveau("Flamme", PokemonType::Feu, Genre::Male, 2));
    e.ajouter_pokemon(pokemon_au_niveau("Goutte", PokemonType::Eau, Genre::Femelle, 10));
    assert!(!e.tenter_reproduction(0, 1));
    assert_eq!(e.nombre_de_pokemon(), 2);
}

#[test]
fn reproduction_echoue_hors_limites() {
    let mut e = Elevage::new();
    e.ajouter_pokemon(pokemon_au_niveau("Flamme", PokemonType::Feu, Genre::Male, 6));
    e.ajouter_pokemon(pokemon_au_niveau("Braise", PokemonType::Feu, Genre::Femelle, 7));
    assert!(!e.tenter_reproduction(5, 0));
    assert_eq!(e.nombre_de_pokemon(), 2);
}

#[test]
fn tri_par_niveau_stable_et_croissant() {
    let mut e = Elevage::new();
    e.ajouter_pokemon(pokemon_au_niveau("a", PokemonType::Feu, Genre::Male, 3));
    e.ajouter_pokemon(pokemon_au_niveau("b", PokemonType::Eau, Genre::Male, 1));
    e.ajouter_pokemon(pokemon_au_niveau("c", PokemonType::Feu, Genre::Femelle, 2));
    e.ajouter_pokemon(pokemon_au_niveau("d", PokemonType::Plante, Genre::Male, 1));
    e.trier_par_niveau();
    assert_eq!(niveaux(&e), vec![1, 1, 2, 3]);
    // Ties keep their prior relative order: b was before d.
    assert_eq!(noms(&e), vec!["b", "d", "c", "a"]);
    // A second application changes nothing.
    let avant = noms(&e);
    e.trier_par_niveau();
    assert_eq!(noms(&e), avant);
    assert_eq!(niveaux(&e), vec![1, 1, 2, 3]);
}

#[test]
fn tri_par_type_alphabetique_et_stable() {
    let mut e = Elevage::new();
    e.ajouter_pokemon(pokemon("a", PokemonType::Plante, Genre::Male));
    e.ajouter_pokemon(pokemon("b", PokemonType::Feu, Genre::Male));
    e.ajouter_pokemon(pokemon("c", PokemonType::Eau, Genre::Femelle));
    e.ajouter_pokemon(pokemon("d", PokemonType::Feu, Genre::Femelle));
    e.ajouter_pokemon(pokemon("e", PokemonType::Electrik, Genre::Male));
    e.ajouter_pokemon(pokemon("f", PokemonType::Normal, Genre::Male));
    e.trier_par_type();
    // Alphabetical by display string: Eau, Electrik, Feu, Normal, Plante;
    // the two Feu keep their prior order.
    assert_eq!(noms(&e), vec!["c", "e", "b", "d", "f", "a"]);
    let avant = noms(&e);
    e.trier_par_type();
    assert_eq!(noms(&e), avant);
}

#[test]
fn texte_de_sauvegarde_exact() {
    let mut e = Elevage::new();
    let mut pika = pokemon("Pikachu", PokemonType::Electrik, Genre::Male);
    pika.gagner_experience(125);
    e.ajouter_pokemon(pika);
    e.ajouter_pokemon(pokemon("Carapuce", PokemonType::Eau, Genre::Femelle));
    assert_eq!(
        e.texte_de_sauvegarde(),
        "Pikachu;2;Electrik;25;Mâle\nCarapuce;1;Eau;0;Femelle\n"
    );
}

#[test]
fn texte_de_sauvegarde_se_reparse() {
    let mut e = Elevage::new();
    e.ajouter_pokemon(pokemon_au_niveau("Herbizarre", PokemonType::Plante, Genre::Femelle, 12));
    let mut normal = pokemon("Tauros", PokemonType::Normal, Genre::Male);
    normal.gagner_experience(342);
    e.ajouter_pokemon(normal);
    let texte = e.texte_de_sauvegarde();
    let lignes: Vec<&str> = texte.lines().collect();
    assert_eq!(lignes.len(), 2);
    for (i, ligne) in lignes.iter().enumerate() {
        let champs: Vec<&str> = ligne.split(';').collect();
        assert_eq!(champs.len(), 5);
        let p = e.pokemon_a(i);
        assert_eq!(champs[0], p.nom);
        assert_eq!(champs[1].parse::<u32>().unwrap(), p.niveau);
        assert_eq!(champs[2], p.pokemon_type.nom_affichage());
        assert_eq!(champs[3].parse::<u32>().unwrap(), p.experience);
        assert_eq!(champs[4], p.genre.nom_affichage());
    }
}

#[test]
fn ecriture_decimale() {
    assert_eq!(u32_vers_chaine(0), "0");
    assert_eq!(u32_vers_chaine(7), "7");
    assert_eq!(u32_vers_chaine(10), "10");
    assert_eq!(u32_vers_chaine(205), "205");
    assert_eq!(u32_vers_chaine(4294967295), "4294967295");
}

#[test]
fn collection_vide() {
    let e = Elevage::new();
    assert_eq!(e.nombre_de_pokemon(), 0);
    assert_eq!(e.texte_de_sauvegarde(), "");
    let mut e = e;
    e.trier_par_niveau();
    assert_eq!(e.nombre_de_pokemon(), 0);
    assert!(!e.tenter_reproduction(0, 0));
}

#[test]
fn nom_avec_delimiteur_corrompt_le_format() {
    // Known limitation, kept on purpose: the delimiter is not escaped
    // inside names, so such a name yields extra fields on re-parse.
    let mut e = Elevage::new();
    e.ajouter_pokemon(pokemon("a;b", PokemonType::Feu, Genre::Male));
    let texte = e.texte_de_sauvegarde();
    let champs: Vec<&str> = texte.trim_end().split(';').collect();
    assert_eq!(champs.len(), 6);
}
