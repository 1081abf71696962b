pub mod pokemon;
pub mod gestion;
pub mod tri;
pub mod texte;
pub(crate) mod alea;
