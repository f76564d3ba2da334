//! Local-first client infrastructure core.
//!
//! Three subsystems for offline-capable apps on intermittent networks:
//! an encrypted, namespaced key-value vault; a sync engine built on hybrid
//! logical clocks with field-level last-write-wins merging; and a network
//! engine with a priority request queue, an HTTP response cache and a
//! connectivity model.  A small localisation toolkit rounds the core out.
//!
//! Every data structure carries a mathematical view, and every operation
//! states in its contract what it returns and how it changes the state.

pub mod cache;
pub mod compression;
pub mod connectivity;
pub mod crdt;
pub mod dictionary;
pub mod formatting;
pub mod crypto;
pub mod hlc;
pub mod network;
pub mod queue;
pub mod runtime;
pub mod sync_store;
pub mod text;
pub mod translit;
pub mod vault;
pub mod vault_store;

pub use cache::CacheError;
pub use cache::CacheStats;
pub use cache::CachedResponse;
pub use cache::HttpCache;
pub use compression::CompressionError;
pub use compression::compress;
pub use compression::compress_string;
pub use compression::decompress;
pub use compression::decompress_string;
pub use compression::should_compress;
pub use connectivity::BandwidthEstimator;
pub use connectivity::ConnectionType;
pub use connectivity::ImageQuality;
pub use connectivity::NetworkStatus;
pub use crdt::CrdtDocument;
pub use crypto::CryptoError;
pub use crypto::EncryptedData;
pub use crdt::MergeResult;
pub use crdt::OpType;
pub use crdt::Operation;
pub use crdt::lww_merge;
pub use dictionary::LanguagePack;
pub use dictionary::PluralForm;
pub use dictionary::TranslationEngine;
pub use dictionary::TranslationPair;
pub use formatting::NumberSystem;
pub use formatting::format_date_indian;
pub use formatting::format_phone_indian;
pub use formatting::format_time_12h;
pub use hlc::HLC;
pub use network::NetworkConfig;
pub use network::NetworkError;
pub use network::RajeevNetwork;
pub use network::parse_connection_type;
pub use network::parse_priority;
pub use sync_store::OpLogEntry;
pub use sync_store::SyncStats;
pub use sync_store::SyncStorage;
pub use sync_store::SyncStorageError;
pub use translit::Script;
pub use translit::detect_script;
pub use translit::supported_scripts;
pub use translit::transliterate_to_devanagari;
pub use queue::HttpMethod;
pub use queue::Priority;
pub use queue::QueueError;
pub use queue::QueueProcessResult;
pub use queue::QueuedRequest;
pub use queue::RequestQueue;
pub use vault::RajeevVault;
pub use vault::StoreOptions;
pub use vault::VaultConfig;
pub use vault::VaultEntry;
pub use vault::VaultError;
pub use vault::VaultStats;
pub use vault::generate_encryption_key;
pub use vault::hash_value;
pub use vault::verify_hash;
pub use vault_store::StorageEngine;
pub use vault_store::StorageStats;
pub use vault_store::StoredEntry;
