pub mod if_change_then_change;
pub mod lock_hash;
pub mod markers;
pub mod never_edit;
pub mod no_curly_quotes;
pub mod pairing;
pub mod pls_no_land;
pub mod remote_check;
pub mod remote_location;
