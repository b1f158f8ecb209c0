//! Small rules of the service: where the schema is fetched, and when memory is
//! short.

use vstd::prelude::*;

use crate::discovery::naming::has_prefix;
use crate::text::{chars_of, push_chars, starts_with, text_of, trim, trimmed};

verus! {

/// Seconds between two looks at the memory of the process.
pub const MEMORY_SAMPLE_SECS: u64 = 15;

/// Whether a host is on this machine and offers no encryption.
pub open spec fn is_local(host_port: Seq<char>) -> bool {
    has_prefix(host_port, "127.0.0.1:"@) || has_prefix(host_port, "localhost:"@)
}

/// Where the schema of a database is fetched.
pub open spec fn schema_address(host_port: Seq<char>, database: Seq<char>) -> Seq<char> {
    (if is_local(host_port) {
        "http"@
    } else {
        "https"@
    }) + "://"@ + host_port + "/v1/database/"@ + database + "/schema?version=9"@
}

/// Where the schema of a database is fetched: without encryption on this
/// machine, else with it.
pub fn schema_url(host_port: &str, database: &str) -> (r: String)
    ensures
        r@ == schema_address(host_port@, database@),
{
    let host = chars_of(host_port);
    let local: bool = starts_with(host.as_slice(), chars_of("127.0.0.1:").as_slice()) || starts_with(
        host.as_slice(),
        chars_of("localhost:").as_slice(),
    );
    let mut url: String = if local {
        text_of(chars_of("http").as_slice())
    } else {
        text_of(chars_of("https").as_slice())
    };
    push_chars(&mut url, chars_of("://").as_slice());
    push_chars(&mut url, host.as_slice());
    push_chars(&mut url, chars_of("/v1/database/").as_slice());
    push_chars(&mut url, chars_of(database).as_slice());
    push_chars(&mut url, chars_of("/schema?version=9").as_slice());
    url
}

/// A setting without white space around it; `None` for one that says nothing.
pub fn setting(text: &str) -> (r: Option<String>)
    ensures
        match r {
            Some(t) => trim(text@).len() > 0 && t@ == trim(text@),
            None => trim(text@).len() == 0,
        },
{
    let chars = chars_of(text);
    let t = trimmed(chars.as_slice());
    if t.len() > 0 {
        Some(text_of(t))
    } else {
        None
    }
}

/// How the pressure on memory changed.
#[derive(Debug, Clone, Copy, PartialEq, Eq, Structural)]
pub enum PressureChange {
    Same,
    /// The process reached its ceiling.
    Rose,
    /// The process is below its ceiling again.
    Fell,
}

/// Takes a look at the memory of the process: whether it is at its ceiling,
/// and what changed since the look before.
pub fn sample_memory(was: bool, resident_bytes: u64, ceiling_bytes: u64) -> (r: (bool, PressureChange))
    ensures
        r.0 <==> resident_bytes >= ceiling_bytes,
        r.1 is Rose <==> r.0 && !was,
        r.1 is Fell <==> !r.0 && was,
{
    let over: bool = resident_bytes >= ceiling_bytes;
    if over && !was {
        (over, PressureChange::Rose)
    } else if !over && was {
        (over, PressureChange::Fell)
    } else {
        (over, PressureChange::Same)
    }
}

/// The schema of a database is fetched without encryption on this machine, and
/// with it from any other host, whose name comes right behind.
pub proof fn law_only_this_machine_goes_without_encryption(port: Seq<char>, host: Seq<char>, database: Seq<char>)
    ensures
        schema_address("127.0.0.1:"@ + port, database) == "http"@ + "://"@ + ("127.0.0.1:"@ + port) + "/v1/database/"@
            + database + "/schema?version=9"@,
        schema_address("localhost:"@ + port, database) == "http"@ + "://"@ + ("localhost:"@ + port) + "/v1/database/"@
            + database + "/schema?version=9"@,
        host.len() > 0 && host[0] != '1' && host[0] != 'l' ==> schema_address(host, database) == "https"@ + "://"@
            + host + "/v1/database/"@ + database + "/schema?version=9"@,
{
    reveal_strlit("127.0.0.1:");
    reveal_strlit("localhost:");
    assert(("127.0.0.1:"@ + port).take(10) =~= "127.0.0.1:"@);
    assert(("localhost:"@ + port).take(10) =~= "localhost:"@);
    if host.len() > 0 {
        assert(has_prefix(host, "127.0.0.1:"@) ==> host.take(10)[0] == '1');
        assert(has_prefix(host, "localhost:"@) ==> host.take(10)[0] == 'l');
    }
}

} // verus!
