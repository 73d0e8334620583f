mod api;
mod auth;
mod envelope;
mod error;
mod name;
mod text;
mod record;
mod registry;
mod store;
mod version;

pub use api::Config;
pub use api::CustomTypedHeader;
pub use api::HttpProtocol;
pub use api::OptionalHeader;
pub use api::PostIndexResponse;
pub use api::PostIndexWarnings;
pub use api::ProtoParseError;
pub use api::QueriedPackage;
pub use api::RawAuthorization;
pub use api::RegistryUser;
pub use api::SearchCratesQuery;
pub use api::XForwardedHost;
pub use api::XForwardedProto;
pub use api::spec_config_api;
pub use api::spec_config_dl;
pub use api::spec_proto;
pub use auth::AccessKind;
pub use auth::AuthPolicy;
pub use auth::AuthRules;
pub use auth::CheckOutcome;
pub use auth::CACHE_CAPACITY;
pub use auth::CACHE_TTL_SECS;
pub use auth::CacheEntryV;
pub use auth::CrateRule;
pub use auth::CrateRuleV;
pub use auth::Evidence;
pub use auth::EvidenceV;
pub use auth::Rule;
pub use auth::RuleV;
pub use auth::TtlCache;
pub use auth::lemma_fail_closed;
pub use auth::lemma_recorded_decision_window;
pub use auth::lemma_ttl_window;
pub use auth::rule_allows;
pub use auth::rules_model;
pub use auth::spec_recorded;
pub use auth::spec_cache_lookup;
pub use auth::spec_decision;
pub use auth::spec_rule_allows;
pub use auth::spec_rule_for;
pub use envelope::PublishEnvelope;
pub use envelope::decode_envelope;
pub use envelope::spec_envelope_archive;
pub use envelope::spec_envelope_index;
pub use envelope::spec_envelope_ok;
pub use envelope::spec_le32;
pub use error::HttpError;
pub use error::BAD_REQUEST;
pub use error::FORBIDDEN;
pub use error::INTERNAL_SERVER_ERROR;
pub use error::NOT_FOUND;
pub use name::CrateName;
pub use name::CrateNameParseError;
pub use name::CrateNameV;
pub use name::char_alphabetic;
pub use name::char_alphanumeric;
pub use name::rest_char_ok;
pub use name::spec_name_ok;
pub use name::name_wf;
pub use name::spec_normalize;
pub use record::DependencyKind;
pub use record::FeatureEntry;
pub use record::FeatureEntryV;
pub use record::GetDependency;
pub use record::GetDependencyV;
pub use record::GetIndexResponse;
pub use record::GetIndexResponseV;
pub use record::PostDependency;
pub use record::PostDependencyV;
pub use record::PostIndexRequest;
pub use record::PostIndexRequestV;
pub use record::features_view;
pub use record::hex_digit;
pub use record::hex_of;
pub use record::opt_view;
pub use record::sha256_of;
pub use record::spec_cksum;
pub use record::spec_project;
pub use record::spec_project_dep;
pub use record::strings_view;
pub use record::features_distinct;
pub use registry::Registry;
pub use registry::add_owners_model;
pub use registry::crate_key_of;
pub use registry::del_owners_model;
pub use registry::index_key_of;
pub use registry::index_prefix_of;
pub use registry::owner_key_of;
pub use registry::owner_prefix_of;
pub use registry::lemma_publish_round_trip;
pub use registry::lemma_republish_conflict;
pub use registry::lemma_yank_round_trip;
pub use registry::crate_prefix;
pub use registry::index_prefix;
pub use registry::no_slash;
pub use registry::owner_prefix;
pub use registry::registry_wf;
pub use registry::spec_crate_key;
pub use registry::spec_index_key;
pub use registry::spec_owner_key;
pub use registry::stored_ok;
pub use store::MemStore;
pub use text::natural_human_names;
pub use text::spec_join;
pub use text::spec_natural_human_names;
pub use store::ObjectStore;
pub use store::StoredV;
pub use store::StoredValue;
pub use store::alist_distinct;
pub use store::alist_model;
pub use store::str_starts_with;
pub use version::Version;
pub use version::semver_char;
pub use version::semver_valid;
pub use version::version_wf;
