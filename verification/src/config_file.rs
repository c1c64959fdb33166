//! Rules of the configuration file itself: the keys it knows, where a parse error lies, and
//! the name of the lock file that serializes its edits.
use vstd::prelude::*;

use crate::presentation::{escape, escape_seq};
use crate::text::{chars, concat, count, count_char, last_index, rfind, slice, string_of};

verus! {

broadcast use vstd::seq::group_seq_axioms;

// ---------------------------------------------------------------------------
// Numbers as text
// ---------------------------------------------------------------------------

pub open spec fn digit_char(d: nat) -> char {
    if d < 10 {
        (('0' as u32) + d) as char
    } else {
        (('a' as u32) + d - 10) as char
    }
}

/// `n` written in `base` (2 to 16) with lower-case digits and no leading zeros.
pub open spec fn spec_digits(n: nat, base: nat) -> Seq<char>
    decreases n,
{
    if base < 2 || n < base {
        seq![digit_char(n)]
    } else {
        proof {
            assert(n / base < n) by (nonlinear_arith)
                requires
                    base >= 2,
                    n >= base,
            ;
        }
        spec_digits(n / base, base).push(digit_char(n % base))
    }
}

fn digit_of(d: u64) -> (c: char)
    requires
        d < 16,
    ensures
        c == digit_char(d as nat),
{
    let table: [char; 16] = ['0', '1', '2', '3', '4', '5', '6', '7', '8', '9', 'a', 'b', 'c', 'd', 'e', 'f'];
    assert(table@ =~= seq!['0', '1', '2', '3', '4', '5', '6', '7', '8', '9', 'a', 'b', 'c', 'd', 'e', 'f']);
    table[d as usize]
}

/// `n` written in `base`, as `format!("{n}")` and `format!("{n:x}")` write it.
pub fn digits(n: u64, base: u64) -> (r: String)
    requires
        2 <= base <= 16,
    ensures
        r@ == spec_digits(n as nat, base as nat),
    decreases n,
{
    if n < base {
        let mut v: Vec<char> = Vec::new();
        v.push(digit_of(n));
        assert(v@ =~= seq![digit_char(n as nat)]);
        string_of(&v)
    } else {
        assert(n / base < n) by (nonlinear_arith)
            requires
                base >= 2,
                n >= base,
        ;
        let head = digits(n / base, base);
        let mut v = chars(head.as_str());
        v.push(digit_of(n % base));
        string_of(&v)
    }
}

// ---------------------------------------------------------------------------
// The lock file
// ---------------------------------------------------------------------------

/// One step of the 64-bit FNV-1a hash.
pub open spec fn fnv_step(h: u64, b: u8) -> u64 {
    (((h ^ (b as u64)) as nat * 0x100000001b3nat) % 0x10000000000000000nat) as u64
}

/// The 64-bit FNV-1a hash of `bytes`.
pub open spec fn fnv_hash(bytes: Seq<u8>) -> u64
    decreases bytes.len(),
{
    if bytes.len() == 0 {
        0xcbf29ce484222325u64
    } else {
        fnv_step(fnv_hash(bytes.drop_last()), bytes.last())
    }
}

/// The hash that names a configuration file's lock (64-bit FNV-1a).
pub fn seahash(bytes: &[u8]) -> (r: u64)
    ensures
        r == fnv_hash(bytes@),
{
    let mut hash: u64 = 0xcbf29ce484222325u64;
    let mut i: usize = 0;
    assert(bytes@.subrange(0, 0) =~= Seq::<u8>::empty());
    while i < bytes.len()
        invariant
            i <= bytes@.len(),
            hash == fnv_hash(bytes@.subrange(0, i as int)),
        decreases bytes.len() - i,
    {
        assert(bytes@.subrange(0, i + 1).drop_last() =~= bytes@.subrange(0, i as int));
        hash = (hash ^ (bytes[i] as u64)).wrapping_mul(0x100000001b3u64);
        i += 1;
    }
    assert(bytes@.subrange(0, bytes@.len() as int) =~= bytes@);
    hash
}

/// The lock file of the configuration file whose resolved path has these bytes.
pub fn lock_file_name(identity: &[u8]) -> (r: String)
    ensures
        r@ == "config-"@ + spec_digits(fnv_hash(identity@) as nat, 16) + ".lock"@,
{
    let key = digits(seahash(identity), 16);
    string_of(&concat(&concat(&chars("config-"), &chars(key.as_str())), &chars(".lock")))
}

// ---------------------------------------------------------------------------
// Parse errors
// ---------------------------------------------------------------------------

/// Where a TOML error lies, without quoting the file: the line counts the newlines before the
/// error, the column the characters after the last of them.
pub open spec fn error_location_text(kind: Seq<char>, before: Option<Seq<char>>) -> Seq<char> {
    match before {
        None => kind + " (values omitted)"@,
        Some(b) => kind + " at line "@ + spec_digits(count_char(b, '\n') + 1, 10) + ", column "@
            + spec_digits((b.len() - (last_index(b, '\n') + 1)) as nat + 1, 10) + " (values omitted)"@,
    }
}

/// Describes a parse error of the kind given, located by the file's text before it.
pub fn config_error_location(kind: &str, before: Option<&str>) -> (r: String)
    requires
        before matches Some(b) ==> b@.len() < u64::MAX,
    ensures
        r@ == error_location_text(kind@, match before {
            Some(b) => Some(b@),
            None => None,
        }),
{
    match before {
        None => string_of(&concat(&chars(kind), &chars(" (values omitted)"))),
        Some(before) => {
            let text = chars(before);
            let lines = count(&text, '\n');
            proof {
                crate::text::lemma_count_char_bound(text@, '\n');
                crate::text::lemma_last_index_bounds(text@, '\n');
            }
            assert(lines <= text@.len());
            let start = match rfind(&text, '\n') {
                Some(i) => i + 1,
                None => 0,
            };
            let column = (text.len() - start) as u64;
            let line = digits(lines as u64 + 1, 10);
            let col = digits(column + 1, 10);
            string_of(
                &concat(
                    &concat(
                        &concat(&concat(&concat(&chars(kind), &chars(" at line ")), &chars(line.as_str())), &chars(", column ")),
                        &chars(col.as_str()),
                    ),
                    &chars(" (values omitted)"),
                ),
            )
        },
    }
}

// ---------------------------------------------------------------------------
// Unknown keys
// ---------------------------------------------------------------------------

pub open spec fn is_top_key(k: Seq<char>) -> bool {
    k == "root"@ || k == "providers"@ || k == "repositories"@
}

pub open spec fn is_provider_key(k: Seq<char>) -> bool {
    ||| k == "preset"@
    ||| k == "prefix"@
    ||| k == "api_url"@
    ||| k == "auth"@
    ||| k == "token_env"@
    ||| k == "username_env"@
    ||| k == "password_env"@
    ||| k == "ssh_user"@
    ||| k == "ssh_port"@
}

pub open spec fn is_repository_key(k: Seq<char>) -> bool {
    k == "url"@ || k == "post_clone"@ || k == "exclude"@
}

fn one_of(k: &[char], names: &Vec<&str>) -> (r: bool)
    ensures
        r == exists|i: int| 0 <= i < names@.len() && names@[i]@ == k@,
{
    let mut i: usize = 0;
    while i < names.len()
        invariant
            i <= names@.len(),
            forall|j: int| 0 <= j < i ==> names@[j]@ != k@,
        decreases names.len() - i,
    {
        if crate::text::equal(&chars(names[i]), k) {
            return true;
        }
        i += 1;
    }
    false
}

fn is_top_key_of(k: &[char]) -> (r: bool)
    ensures
        r == is_top_key(k@),
{
    let names: Vec<&str> = vec!["root", "providers", "repositories"];
    proof {
        reveal_strlit("root");
        reveal_strlit("providers");
        reveal_strlit("repositories");
    }
    let r = one_of(k, &names);
    assert(names@[0]@ == "root"@ && names@[1]@ == "providers"@ && names@[2]@ == "repositories"@);
    r
}

fn is_provider_key_of(k: &[char]) -> (r: bool)
    ensures
        r == is_provider_key(k@),
{
    let names: Vec<&str> = vec![
        "preset", "prefix", "api_url", "auth", "token_env", "username_env", "password_env", "ssh_user", "ssh_port",
    ];
    let r = one_of(k, &names);
    assert(names@[0]@ == "preset"@ && names@[1]@ == "prefix"@ && names@[2]@ == "api_url"@ && names@[3]@ == "auth"@
        && names@[4]@ == "token_env"@ && names@[5]@ == "username_env"@ && names@[6]@ == "password_env"@
        && names@[7]@ == "ssh_user"@ && names@[8]@ == "ssh_port"@);
    r
}

fn is_repository_key_of(k: &[char]) -> (r: bool)
    ensures
        r == is_repository_key(k@),
{
    let names: Vec<&str> = vec!["url", "post_clone", "exclude"];
    let r = one_of(k, &names);
    assert(names@[0]@ == "url"@ && names@[1]@ == "post_clone"@ && names@[2]@ == "exclude"@);
    r
}

/// The keys of a configuration file, as far as warnings about unknown keys need them.
pub struct ConfigKeys {
    pub top: Vec<String>,
    /// Each provider's host and keys.
    pub providers: Vec<(String, Vec<String>)>,
    /// Each repository table's keys, by position.
    pub repositories: Vec<Vec<String>>,
}

/// One warning per unknown key: top-level keys, then provider keys, then repository keys.
pub fn unknown_key_warnings(keys: &ConfigKeys) -> (r: Vec<String>)
    ensures
        forall|k: int| 0 <= k < keys.top@.len() && !is_top_key(keys.top@[k]@) ==> exists|w: int| 0 <= w < r@.len()
            && (#[trigger] r@[w])@ == "lager: warning: unknown config key `"@ + escape_seq((#[trigger] keys.top@[k])@) + "`"@,
{
    let mut warnings: Vec<String> = Vec::new();
    let mut i: usize = 0;
    while i < keys.top.len()
        invariant
            i <= keys.top@.len(),
            forall|k: int| 0 <= k < i && !is_top_key(keys.top@[k]@) ==> exists|w: int| 0 <= w < warnings@.len()
                && (#[trigger] warnings@[w])@ == "lager: warning: unknown config key `"@ + escape_seq((#[trigger] keys.top@[k])@) + "`"@,
        decreases keys.top.len() - i,
    {
        let key = chars(keys.top[i].as_str());
        if !is_top_key_of(&key) {
            let message = concat(&concat(&chars("lager: warning: unknown config key `"), &chars(escape(keys.top[i].as_str()).as_str())), &chars("`"));
            let ghost before = warnings@;
            warnings.push(string_of(&message));
            proof {
                assert(warnings@[before.len() as int]@ == message@);
                assert forall|k: int| 0 <= k < i + 1 && !is_top_key(keys.top@[k]@) implies exists|w: int| 0 <= w < warnings@.len()
                    && (#[trigger] warnings@[w])@ == "lager: warning: unknown config key `"@ + escape_seq((#[trigger] keys.top@[k])@) + "`"@ by {
                    if k < i {
                        let w = choose|w: int| 0 <= w < before.len()
                            && (#[trigger] before[w])@ == "lager: warning: unknown config key `"@ + escape_seq(keys.top@[k]@) + "`"@;
                        assert(warnings@[w] == before[w]);
                    }
                }
            }
        }
        i += 1;
    }
    let mut p: usize = 0;
    while p < keys.providers.len()
        invariant
            p <= keys.providers@.len(),
            forall|k: int| 0 <= k < keys.top@.len() && !is_top_key(keys.top@[k]@) ==> exists|w: int| 0 <= w < warnings@.len()
                && (#[trigger] warnings@[w])@ == "lager: warning: unknown config key `"@ + escape_seq((#[trigger] keys.top@[k])@) + "`"@,
        decreases keys.providers.len() - p,
    {
        let (host, names) = (&keys.providers[p].0, &keys.providers[p].1);
        let mut j: usize = 0;
        while j < names.len()
            invariant
                j <= names@.len(),
                forall|k: int| 0 <= k < keys.top@.len() && !is_top_key(keys.top@[k]@) ==> exists|w: int| 0 <= w < warnings@.len()
                    && (#[trigger] warnings@[w])@ == "lager: warning: unknown config key `"@ + escape_seq((#[trigger] keys.top@[k])@) + "`"@,
            decreases names.len() - j,
        {
            if !is_provider_key_of(&chars(names[j].as_str())) {
                let message = concat(
                    &concat(
                        &concat(&concat(&chars("lager: warning: unknown provider key `"), &chars(escape(host.as_str()).as_str())), &chars(".")),
                        &chars(escape(names[j].as_str()).as_str()),
                    ),
                    &chars("`"),
                );
                let ghost before = warnings@;
                warnings.push(string_of(&message));
                proof {
                    assert forall|k: int| 0 <= k < keys.top@.len() && !is_top_key(keys.top@[k]@) implies exists|w: int| 0 <= w < warnings@.len()
                        && (#[trigger] warnings@[w])@ == "lager: warning: unknown config key `"@ + escape_seq((#[trigger] keys.top@[k])@) + "`"@ by {
                        let w = choose|w: int| 0 <= w < before.len()
                            && (#[trigger] before[w])@ == "lager: warning: unknown config key `"@ + escape_seq(keys.top@[k]@) + "`"@;
                        assert(warnings@[w] == before[w]);
                    }
                }
            }
            j += 1;
        }
        p += 1;
    }
    let mut r: usize = 0;
    while r < keys.repositories.len()
        invariant
            r <= keys.repositories@.len(),
            forall|k: int| 0 <= k < keys.top@.len() && !is_top_key(keys.top@[k]@) ==> exists|w: int| 0 <= w < warnings@.len()
                && (#[trigger] warnings@[w])@ == "lager: warning: unknown config key `"@ + escape_seq((#[trigger] keys.top@[k])@) + "`"@,
        decreases keys.repositories.len() - r,
    {
        let names = &keys.repositories[r];
        let mut j: usize = 0;
        while j < names.len()
            invariant
                j <= names@.len(),
                r < keys.repositories@.len(),
                forall|k: int| 0 <= k < keys.top@.len() && !is_top_key(keys.top@[k]@) ==> exists|w: int| 0 <= w < warnings@.len()
                    && (#[trigger] warnings@[w])@ == "lager: warning: unknown config key `"@ + escape_seq((#[trigger] keys.top@[k])@) + "`"@,
            decreases names.len() - j,
        {
            if !is_repository_key_of(&chars(names[j].as_str())) {
                let index = digits(r as u64, 10);
                let message = concat(
                    &concat(
                        &concat(&concat(&chars("lager: warning: unknown repository key `repositories["), &chars(index.as_str())), &chars("].")),
                        &chars(escape(names[j].as_str()).as_str()),
                    ),
                    &chars("`"),
                );
                let ghost before = warnings@;
                warnings.push(string_of(&message));
                proof {
                    assert forall|k: int| 0 <= k < keys.top@.len() && !is_top_key(keys.top@[k]@) implies exists|w: int| 0 <= w < warnings@.len()
                        && (#[trigger] warnings@[w])@ == "lager: warning: unknown config key `"@ + escape_seq((#[trigger] keys.top@[k])@) + "`"@ by {
                        let w = choose|w: int| 0 <= w < before.len()
                            && (#[trigger] before[w])@ == "lager: warning: unknown config key `"@ + escape_seq(keys.top@[k]@) + "`"@;
                        assert(warnings@[w] == before[w]);
                    }
                }
            }
            j += 1;
        }
        r += 1;
    }
    warnings
}

} // verus!
