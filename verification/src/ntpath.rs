//! Device-path to drive-letter rewriting.
//!
//! Kernel-trace records carry image paths in device form
//! (`\Device\HarddiskVolume3\...`).  Given the device-to-drive mapping the
//! operating system reports, the first mapping whose device prefix the path
//! starts with is rewritten to its drive form.

use vstd::prelude::*;

use crate::paths::chars_of;

verus! {

/// Whether `p` begins with `prefix`.
pub open spec fn starts_with(p: Seq<char>, prefix: Seq<char>) -> bool {
    p.len() >= prefix.len() && p.subrange(0, prefix.len() as int) == prefix
}

/// The first mapping whose device prefix matches, applied: the drive part
/// plus the remainder of the path.
pub open spec fn nt_lookup(
    mappings: Seq<(Seq<char>, Seq<char>)>,
    p: Seq<char>,
) -> Option<Seq<char>>
    decreases mappings.len(),
{
    if p.len() == 0 || mappings.len() == 0 {
        None
    } else {
        let (device, drive) = mappings[0];
        if starts_with(p, device) {
            Some(drive + p.subrange(device.len() as int, p.len() as int))
        } else {
            nt_lookup(mappings.drop_first(), p)
        }
    }
}

/// Whether the first `prefix.len()` characters of `p` are `prefix`.
#[verifier::loop_isolation(false)]
fn chars_start_with(p: &Vec<char>, prefix: &str) -> (r: bool)
    ensures
        r == starts_with(p@, prefix@),
{
    let n = prefix.unicode_len();
    if p.len() < n {
        return false;
    }
    let mut i: usize = 0;
    while i < n
        invariant
            i <= n,
            forall|m: int| 0 <= m < i ==> p@[m] == prefix@[m],
        decreases n - i,
    {
        if p[i] != prefix.get_char(i) {
            return false;
        }
        i = i + 1;
    }
    proof {
        assert(p@.subrange(0, prefix@.len() as int) =~= prefix@);
    }
    true
}

/// Rewrites a device path to its drive-letter form using the given
/// device-to-drive mappings, first matching mapping first.
#[verifier::loop_isolation(false)]
pub fn nt_to_dos_path(mappings: &Vec<(String, String)>, nt_path: &str) -> (r: Option<String>)
    ensures
        (match r {
            Some(p) => nt_lookup(
                mappings@.map_values(|m: (String, String)| (m.0@, m.1@)),
                nt_path@,
            ) == Some(p@),
            None => nt_lookup(
                mappings@.map_values(|m: (String, String)| (m.0@, m.1@)),
                nt_path@,
            ) == None::<Seq<char>>,
        }),
{
    let ghost ms = mappings@.map_values(|m: (String, String)| (m.0@, m.1@));
    let n_path = nt_path.unicode_len();
    if n_path == 0 {
        proof {
            lemma_nt_lookup_empty(ms, nt_path@);
        }
        return None;
    }
    let p = chars_of(nt_path);
    let n = mappings.len();
    proof {
        assert(ms.subrange(0, ms.len() as int) =~= ms);
    }
    let mut i: usize = 0;
    while i < n
        invariant
            i <= n,
            n == mappings@.len(),
            p@ == nt_path@,
            nt_path@.len() > 0,
            nt_lookup(ms.subrange(i as int, ms.len() as int), nt_path@) == nt_lookup(ms, nt_path@),
        decreases n - i,
    {
        let ghost suffix = ms.subrange(i as int, ms.len() as int);
        proof {
            assert(suffix[0] == ms[i as int]);
            assert(suffix.drop_first() =~= ms.subrange(i + 1, ms.len() as int));
        }
        if chars_start_with(&p, mappings[i].0.as_str()) {
            let device_len = mappings[i].0.as_str().unicode_len();
            let rest = nt_path.substring_char(device_len, n_path);
            let out = mappings[i].1.clone().concat(rest);
            return Some(out);
        }
        i = i + 1;
    }
    proof {
        assert(ms.subrange(n as int, ms.len() as int).len() == 0);
    }
    None
}

/// An empty path is never rewritten.
proof fn lemma_nt_lookup_empty(ms: Seq<(Seq<char>, Seq<char>)>, p: Seq<char>)
    requires
        p.len() == 0,
    ensures
        nt_lookup(ms, p) == None::<Seq<char>>,
{
}

} // verus!
