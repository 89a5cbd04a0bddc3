//! Resolve names of deep-sky objects to canonical identities, cache first.
//!
//! A name is normalized and looked up in the store; only where it is not known
//! there is a service asked, and what it answers is stored. The store keeps one
//! row for each object, with all its names, and a row never yields to a source
//! of lower precedence than its own. Work that cannot be done now waits in a
//! queue.
//!
//! Everything here computes on values in memory: the tables of the store and of
//! the queue ([`cache`]), the requests to SIMBAD's TAP service ([`tap`]) and to
//! Sesame ([`sesame`]) with what is made of their answers, and the decisions in
//! between ([`orchestrate`], [`flow`], [`batch`]). Files, network and clocks belong to the
//! caller. Floating-point numbers are handled by their bit patterns ([`float`]):
//! the caller parses and prints them.
//!
//! The modules whose names end in `laws` state what holds of several operations
//! together.

pub mod batch;
pub mod cache;
pub mod caldwell;
pub mod caldwell_laws;
pub mod call_laws;
pub mod config;
pub mod drain_laws;
pub mod endpoint;
pub mod error;
pub mod float;
pub mod float_laws;
pub mod flow;
pub mod fuzzy_laws;
pub mod identity;
pub mod normalize;
pub mod normalize_laws;
pub mod number;
pub mod number_laws;
pub mod orchestrate;
pub mod orchestrate_laws;
pub mod order;
pub mod order_laws;
pub mod resolve_laws;
pub mod resolver;
pub mod sesame;
pub mod sesame_answer_laws;
pub mod sesame_laws;
pub mod table;
pub mod tap;
pub mod tap_answer_laws;
pub mod tap_laws;
pub mod text;
pub mod text_laws;
pub mod types;
pub mod types_laws;
pub mod update_laws;
pub mod wire;
pub mod wire_laws;

pub use batch::{drain, DrainError, DrainRounds, DrainSummary, Verdict};
pub use cache::queue::{PendingRow, QueueTables};
pub use cache::state::{AliasRow, TargetRow};
pub use cache::tables::{CacheChange, CacheTables, Upsert};
pub use cache::{BatchDurability, CacheError, CachedTarget, PendingItem, PendingState, QueueError, SearchHit, UpsertOutcome, RANK_EXACT, RANK_FUZZY, RANK_PREFIX, RANK_SUBSTRING};
pub use config::{ResolverConfig, SimbadConfig, Timeout, DEFAULT_TAP_ENDPOINT, DEFAULT_USER_AGENT};
pub use error::ResolveError;
pub use float::{Double, Single};
pub use flow::{ResolveEvent, ResolveFlow, ResolveStep};
pub use orchestrate::{FileCache, Resolution, SimbadResolver, UnresolvedReason};
pub use resolver::{FakeResolver, OfflineResolver, PositionResolver, Resolver};
pub use sesame::{default_sesame_config, SesameResolver, DEFAULT_SESAME_ENDPOINT};
pub use tap::TapResolver;
pub use types::{map_otype, AliasKind, ObjectType, PositionMatch, ResolvedAlias, ResolvedIdentity, TargetSource};
