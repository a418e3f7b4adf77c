//! FOFA search: request models, query validation, result normalisation,
//! the rules of the search client and of the relay quota API.
pub mod auth;
pub mod client;
pub mod error;
pub mod models;
pub mod validator;

pub use auth::MAX_AUTH_RESPONSE_BYTES;
pub use client::{RetryPolicy, MAX_SEARCH_RESPONSE_BYTES};
pub use error::FofaError;
pub use models::{
    map_location_field, FieldState, FlexibleTime, JsonValue, QuotaInfo, RawSearchResponse,
    RetryStats, ReturnField, SearchQuery, SearchResponse, UserInfoEnvelope,
};
pub use validator::{
    default_return_fields, field_limit, supported_return_field_names, ApiMode, QueryValidator,
    ValidatedSearch, ValidationWarning, DEFAULT_REQUEST_SIZE, LARGE_FIELD_REQUEST_SIZE,
    OFFICIAL_BODY_REQUEST_SIZE, OFFICIAL_RETURN_FIELD_NAMES, RELAY_RETURN_FIELD_NAMES,
};
