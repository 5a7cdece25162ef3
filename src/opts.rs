//! The server's configuration, and what is wrong with a given one.
use vstd::prelude::*;
use crate::connection::ServerFlags;

verus! {

/// The settings the server is started with.
pub struct Opts {
    /// The directory served.
    pub directory: String,
    pub port: u16,
    /// The address the server binds to.
    pub hostmask: String,
    pub uploading_enabled: bool,
    pub disable_directory_listings: bool,
    /// Start rejecting requests until the user enables serving.
    pub start_disabled: bool,
    /// In milliseconds, how often the dashboard is redrawn.
    pub ui_refresh_rate: u64,
    /// Run without the dashboard.
    pub headless: bool,
    /// The largest upload in bytes; 0 for no limit.
    pub size_limit: usize,
    /// The page shown for a directory, when it exists.
    pub index_file: String,
    pub no_index_file: bool,
    pub no_append_slash: bool,
}

/// The problems found in a configuration.
#[derive(Clone, Copy, Debug, PartialEq, Eq, Structural)]
pub struct OptsReport {
    /// Started disabled without a dashboard, the server can never be
    /// enabled; this is only warned about.
    pub stays_disabled: bool,
    /// The index file name holds a `/`; the server refuses to start.
    pub invalid_index_file: bool,
}

fn has_slash(b: &[u8]) -> (r: bool)
    ensures
        r == b@.contains(47u8),
{
    let mut i: usize = 0;
    while i < b.len()
        invariant
            i <= b@.len(),
            forall|k: int| 0 <= k < i ==> b@[k] != 47u8,
        decreases b@.len() - i,
    {
        if b[i] == 47u8 {
            assert(b@[i as int] == 47u8);
            return true;
        }
        i = i + 1;
    }
    false
}

/// Checks a configuration.
pub fn verify_opts(opts: &Opts) -> (r: OptsReport)
    ensures
        r.stays_disabled == (opts.start_disabled && opts.headless),
        r.invalid_index_file == vstd::utf8::encode_utf8(opts.index_file@).contains(47u8),
{
    let bytes = opts.index_file.as_str().as_bytes();
    OptsReport {
        stays_disabled: opts.start_disabled && opts.headless,
        invalid_index_file: has_slash(bytes),
    }
}

/// The switches the engine starts with.
pub fn server_flags(opts: &Opts) -> (r: ServerFlags)
    ensures
        r.dir_listings == !opts.disable_directory_listings,
        r.disabled == opts.start_disabled,
        r.uploading == opts.uploading_enabled,
{
    ServerFlags {
        dir_listings: !opts.disable_directory_listings,
        disabled: opts.start_disabled,
        uploading: opts.uploading_enabled,
    }
}

} // verus!
