pub mod constants;
pub mod is_valid_url;
pub mod normalize_url;
pub mod parse;
pub mod strip_url;
pub mod url_parts;
