//! Building blocks of a small JSON web service: opaque access tokens in a
//! URL-safe text form, the rules that decide whether a request's `Accept`
//! and `Accept-Charset` headers allow a UTF-8 JSON answer, the answers given
//! to refused requests, and the reading of database parameters from the
//! service's TOML configuration.
mod config;
mod error;
mod req;
mod res;
mod token;

pub use config::{
    TomlSection, TomlTable, TomlValue, UserInfo, db_params, db_params_from_toml,
    law_db_database, law_db_no_section, law_db_no_user, law_db_user_with_password,
    law_db_user_without_password, law_lookup_absent, law_lookup_first, lookup,
    parse_db_params, section_str, toml_document,
};
pub use error::UserError;
pub use req::{
    Charset, MediaParam, MediaRange, VerifyAcceptable, charset_acceptable, charset_is_acceptable,
    charsets_allow_utf8, header_view, is_charset_param, is_utf8_param, json_admitted,
    law_accept_charset_decides_alone, law_any_json_media_accepts, law_any_utf8_charset_accepts,
    law_media_charset_params, law_media_type_required, law_no_json_media_refuses,
    law_no_utf8_charset_refuses, law_utf8_charset_names, media_acceptable, media_allow_json, mime_is_acceptable, request_acceptable, utf8_admitted,
};
pub use res::{
    HelloWorld, Method, RequestError, STATUS_METHOD_NOT_ALLOWED, STATUS_NOT_ACCEPTABLE, STATUS_OK,
    err_method_not_allowed, err_not_acceptable, hello, law_refusal_statuses, match_method, method_not_allowed,
    not_acceptable,
};

pub use token::{
    InvalidTokenError, Token, all_symbols, all_url_safe, digit_symbol, digits_of, digits_value,
    law_digit_alphabet, law_parse_needs_alphabet, law_parse_token_digits, law_part_limit,
    law_symbol_values, law_token_text_digits, lemma_parse_token_text, lemma_text_reads_back, lemma_token_text_of_parse, lemma_token_text_shape,
    lemma_token_view_injective, parse_token_text,
    part_limit, pow64, symbol_value, token_text, token_text_bytes, url_safe_symbol,
};
