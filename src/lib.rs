//! Core of a package manager: dependency resolution, conflict detection,
//! integrity and trust checks, safe archive extraction, the transaction
//! journal and the advisory lock.

// Shared models and helpers.
pub mod graf;
pub mod hata;
pub mod metin;
pub mod paket;

// Dependency resolution and conflict detection.
pub mod bagimlilik;
pub mod bildirim;
pub mod cakisma;
pub mod cozumleyici;
pub mod harita;

// Integrity, trust and extraction.
pub mod arsiv;
pub mod butunluk;
pub mod guven;

// Journal and lock.
pub mod islem;
pub mod kilit;

// Repositories, search and the surrounding records.
pub mod arama;
pub mod bayrak;
pub mod betik;
pub mod depo;
pub mod ilerleme;
pub mod ozellikler;
