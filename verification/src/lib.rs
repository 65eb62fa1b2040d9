//! Inventory of the source packages that a package manager keeps in its
//! registry cache, and upkeep of the symbolic links that point at the tool's
//! own executable.
//!
//! Every function here works on plain values: the caller reads directories,
//! environment and links, hands over what it found, and performs what the
//! library decides.

pub mod caminho;
pub mod corresponde;
pub mod fontes;
pub mod linque;
pub mod relatorio;
pub mod texto;
pub mod varredura;
