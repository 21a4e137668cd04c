//! Namespace key formats.
//!
//! Every key, the version counter and the lock name are scoped by the
//! `(component_name, instance_id)` pair. The formats here are part of the
//! external contract: a conforming peer over the same store must build the
//! same strings.

use vstd::prelude::*;

use crate::num::dec_chars;
use crate::num::int_dec_chars;
use crate::num::append_i64_dec;
use crate::num::append_u64_dec;

verus! {

/// The fully-qualified storage key for a caller-supplied key.
pub open spec fn fq_key_spec(component: Seq<char>, instance: Seq<char>, key: Seq<char>) -> Seq<
    char,
> {
    "STATE:"@ + component + "__"@ + instance + "/"@ + key
}

/// The namespace prefix every fully-qualified key carries.
pub open spec fn key_prefix_spec(component: Seq<char>, instance: Seq<char>) -> Seq<char> {
    "STATE:"@ + component + "__"@ + instance + "/"@
}

/// The enumeration pattern for the namespace: its prefix and a wildcard.
pub open spec fn key_pattern_spec(component: Seq<char>, instance: Seq<char>) -> Seq<char> {
    key_prefix_spec(component, instance) + "*"@
}

/// The storage key of the namespace's version counter.
pub open spec fn version_key_spec(component: Seq<char>, instance: Seq<char>) -> Seq<char> {
    "VERSION:"@ + component + "__"@ + instance
}

/// The name of the namespace's mutual-exclusion lock.
pub open spec fn lock_name_spec(component: Seq<char>, instance: Seq<char>) -> Seq<char> {
    "LOCK:"@ + component + "__"@ + instance
}

/// `k` without its leading prefix `p`; `k` unchanged when `p` does not
/// lead it.
pub open spec fn strip_prefix_spec(p: Seq<char>, k: Seq<char>) -> Seq<char> {
    if p.len() <= k.len() && k.subrange(0, p.len() as int) == p {
        k.subrange(p.len() as int, k.len() as int)
    } else {
        k
    }
}

/// Builds the fully-qualified storage key.
pub fn fq_key(component: &str, instance: &str, key: &str) -> (r: String)
    ensures
        r@ == fq_key_spec(component@, instance@, key@),
{
    let mut r = String::new();
    r.append("STATE:");
    r.append(component);
    r.append("__");
    r.append(instance);
    r.append("/");
    r.append(key);
    proof {
        assert(r@ =~= fq_key_spec(component@, instance@, key@));
    }
    r
}

/// Builds the namespace's key prefix.
pub fn key_prefix(component: &str, instance: &str) -> (r: String)
    ensures
        r@ == key_prefix_spec(component@, instance@),
{
    let mut r = String::new();
    r.append("STATE:");
    r.append(component);
    r.append("__");
    r.append(instance);
    r.append("/");
    proof {
        assert(r@ =~= key_prefix_spec(component@, instance@));
    }
    r
}

/// Builds the namespace's enumeration pattern.
pub fn key_pattern(component: &str, instance: &str) -> (r: String)
    ensures
        r@ == key_pattern_spec(component@, instance@),
{
    let mut r = key_prefix(component, instance);
    r.append("*");
    proof {
        assert(r@ =~= key_pattern_spec(component@, instance@));
    }
    r
}

/// Builds the version counter's storage key.
pub fn version_key(component: &str, instance: &str) -> (r: String)
    ensures
        r@ == version_key_spec(component@, instance@),
{
    let mut r = String::new();
    r.append("VERSION:");
    r.append(component);
    r.append("__");
    r.append(instance);
    proof {
        assert(r@ =~= version_key_spec(component@, instance@));
    }
    r
}

/// Builds the lock name.
pub fn lock_name(component: &str, instance: &str) -> (r: String)
    ensures
        r@ == lock_name_spec(component@, instance@),
{
    let mut r = String::new();
    r.append("LOCK:");
    r.append(component);
    r.append("__");
    r.append(instance);
    proof {
        assert(r@ =~= lock_name_spec(component@, instance@));
    }
    r
}

/// Removes the leading prefix `p` from `k`; returns `k` unchanged when
/// `p` does not lead it.
pub fn strip_prefix(p: &str, k: &str) -> (r: String)
    ensures
        r@ == strip_prefix_spec(p@, k@),
{
    let plen = p.unicode_len();
    let klen = k.unicode_len();
    if plen > klen {
        return k.to_owned();
    }
    let mut i: usize = 0;
    while i < plen
        invariant
            0 <= i <= plen <= klen,
            plen == p@.len(),
            klen == k@.len(),
            forall|j: int| 0 <= j < i ==> p@[j] == #[trigger] k@[j],
        decreases plen - i,
    {
        if p.get_char(i) != k.get_char(i) {
            proof {
                assert(k@.subrange(0, plen as int)[i as int] == k@[i as int]);
                assert(k@.subrange(0, p@.len() as int) != p@);
            }
            return k.to_owned();
        }
        i = i + 1;
    }
    proof {
        assert(k@.subrange(0, plen as int) =~= p@);
    }
    let r = k.substring_char(plen, klen).to_owned();
    r
}

/// Stripping the namespace prefix from a fully-qualified key gives back
/// the caller's key: enumeration loses nothing.
pub proof fn lemma_fq_strip(component: Seq<char>, instance: Seq<char>, key: Seq<char>)
    ensures
        strip_prefix_spec(
            key_prefix_spec(component, instance),
            fq_key_spec(component, instance, key),
        ) == key,
{
    let p = key_prefix_spec(component, instance);
    let f = fq_key_spec(component, instance, key);
    assert(f =~= p + key);
    assert(f.subrange(0, p.len() as int) =~= p);
    assert(f.subrange(p.len() as int, f.len() as int) =~= key);
}

/// Builds the store's connection URL from its parameters: scheme by TLS
/// choice, an optional password, host, port and database index.
pub fn store_url(host: &str, port: u16, db: i64, password: Option<&str>, ssl: bool) -> (r: String)
    ensures
        r@ == store_url_spec(host@, port, db, password_view(password), ssl),
{
    let mut r = String::new();
    if ssl {
        r.append("rediss://");
    } else {
        r.append("redis://");
    }
    match password {
        Some(pw) => {
            r.append(":");
            r.append(pw);
            r.append("@");
        },
        None => {},
    }
    r.append(host);
    r.append(":");
    append_u64_dec(&mut r, port as u64);
    r.append("/");
    append_i64_dec(&mut r, db);
    proof {
        assert(r@ =~= store_url_spec(host@, port, db, password_view(password), ssl));
    }
    r
}

/// The view of an optional password.
pub open spec fn password_view(password: Option<&str>) -> Option<Seq<char>> {
    match password {
        Some(pw) => Some(pw@),
        None => None,
    }
}

/// The store's connection URL.
pub open spec fn store_url_spec(
    host: Seq<char>,
    port: u16,
    db: i64,
    password: Option<Seq<char>>,
    ssl: bool,
) -> Seq<char> {
    let scheme = if ssl {
        "rediss://"@
    } else {
        "redis://"@
    };
    let auth = match password {
        Some(pw) => ":"@ + pw + "@"@,
        None => Seq::<char>::empty(),
    };
    scheme + auth + host + ":"@ + dec_chars(port as nat) + "/"@ + int_dec_chars(db as int)
}

} // verus!
