//! Policies on transparent huge pages.

use vstd::prelude::*;
use crate::error::VfsError;
use crate::text::{is_white_space, same_text, trim, trimmed, trimmed_end, trimmed_start};

verus! {

/// When private mappings use huge pages.
#[derive(Debug, Clone, Copy, PartialEq, Eq, Structural)]
pub enum ThpPolicy {
    Always,
    Madvise,
    Never,
}

impl ThpPolicy {
    /// The name of the policy.
    pub open spec fn name(self) -> Seq<char> {
        match self {
            ThpPolicy::Always => "always"@,
            ThpPolicy::Madvise => "madvise"@,
            ThpPolicy::Never => "never"@,
        }
    }

    /// The policy that a text names, white space around it put aside.
    pub open spec fn named(s: Seq<char>) -> Option<ThpPolicy> {
        if trimmed(s) == ThpPolicy::Always.name() {
            Some(ThpPolicy::Always)
        } else if trimmed(s) == ThpPolicy::Madvise.name() {
            Some(ThpPolicy::Madvise)
        } else if trimmed(s) == ThpPolicy::Never.name() {
            Some(ThpPolicy::Never)
        } else {
            None
        }
    }

    /// The name of the policy.
    pub fn as_str(self) -> (r: &'static str)
        ensures
            r@ == self.name(),
    {
        match self {
            ThpPolicy::Always => "always",
            ThpPolicy::Madvise => "madvise",
            ThpPolicy::Never => "never",
        }
    }

    /// The policy that a text names, white space around it put aside.
    pub fn parse(s: &str) -> (r: Option<ThpPolicy>)
        ensures
            r == ThpPolicy::named(s@),
    {
        let text: &str = trim(s);
        if same_text(text, "always") {
            Some(ThpPolicy::Always)
        } else if same_text(text, "madvise") {
            Some(ThpPolicy::Madvise)
        } else if same_text(text, "never") {
            Some(ThpPolicy::Never)
        } else {
            None
        }
    }
}

/// When shared memory uses huge pages.
#[derive(Debug, Clone, Copy, PartialEq, Eq, Structural)]
pub enum ShmemThpPolicy {
    Always,
    Advise,
    Never,
}

impl ShmemThpPolicy {
    /// The name of the policy.
    pub open spec fn name(self) -> Seq<char> {
        match self {
            ShmemThpPolicy::Always => "always"@,
            ShmemThpPolicy::Advise => "advise"@,
            ShmemThpPolicy::Never => "never"@,
        }
    }

    /// The policy that a text names, white space around it put aside.
    pub open spec fn named(s: Seq<char>) -> Option<ShmemThpPolicy> {
        if trimmed(s) == ShmemThpPolicy::Always.name() {
            Some(ShmemThpPolicy::Always)
        } else if trimmed(s) == ShmemThpPolicy::Advise.name() {
            Some(ShmemThpPolicy::Advise)
        } else if trimmed(s) == ShmemThpPolicy::Never.name() {
            Some(ShmemThpPolicy::Never)
        } else {
            None
        }
    }

    /// The name of the policy.
    pub fn as_str(self) -> (r: &'static str)
        ensures
            r@ == self.name(),
    {
        match self {
            ShmemThpPolicy::Always => "always",
            ShmemThpPolicy::Advise => "advise",
            ShmemThpPolicy::Never => "never",
        }
    }

    /// The policy that a text names, white space around it put aside.
    pub fn parse(s: &str) -> (r: Option<ShmemThpPolicy>)
        ensures
            r == ShmemThpPolicy::named(s@),
    {
        let text: &str = trim(s);
        if same_text(text, "always") {
            Some(ShmemThpPolicy::Always)
        } else if same_text(text, "advise") {
            Some(ShmemThpPolicy::Advise)
        } else if same_text(text, "never") {
            Some(ShmemThpPolicy::Never)
        } else {
            None
        }
    }
}

/// The policies in force.
#[derive(Debug, Clone, Copy, PartialEq, Eq, Structural)]
pub struct Policies {
    pub thp: ThpPolicy,
    pub shmem: ShmemThpPolicy,
}

impl Policies {
    /// Huge pages where they are asked for, as it is at the start.
    pub fn new() -> (r: Policies)
        ensures
            r.thp == ThpPolicy::Madvise,
            r.shmem == ShmemThpPolicy::Advise,
    {
        Policies { thp: ThpPolicy::Madvise, shmem: ShmemThpPolicy::Advise }
    }
}

/// Sets the policy for private mappings by its name. White space alone changes
/// nothing; a text that names no policy is `InvalidInput`.
pub fn set_thp_policy(policies: &mut Policies, policy: &str) -> (r: Result<Vec<u8>, VfsError>)
    ensures
        trimmed(policy@).len() == 0 || ThpPolicy::named(policy@) is Some ==> r is Ok,
        trimmed(policy@).len() > 0 && ThpPolicy::named(policy@) is None ==> r == Err::<
            Vec<u8>,
            VfsError,
        >(VfsError::InvalidInput),
        r matches Ok(v) ==> v@.len() == 0,
        *final(policies) == (if trimmed(policy@).len() > 0 && ThpPolicy::named(policy@) is Some {
            Policies { thp: ThpPolicy::named(policy@).unwrap(), ..*old(policies) }
        } else {
            *old(policies)
        }),
{
    let text: &str = trim(policy);
    proof {
        lemma_trimmed_twice(policy@);
    }
    if text.unicode_len() == 0 {
        return Ok(Vec::new());
    }
    match ThpPolicy::parse(text) {
        Some(parsed) => {
            policies.thp = parsed;
            Ok(Vec::new())
        },
        None => Err(VfsError::InvalidInput),
    }
}

/// The name of the policy for private mappings.
pub fn current_thp_policy(policies: &Policies) -> (r: String)
    ensures
        r@ == policies.thp.name(),
{
    policies.thp.as_str().to_owned()
}

/// Sets the policy for shared memory by its name. White space alone changes
/// nothing; a text that names no policy is `InvalidInput`.
pub fn set_shmem_thp_policy(policies: &mut Policies, policy: &str) -> (r: Result<Vec<u8>, VfsError>)
    ensures
        trimmed(policy@).len() == 0 || ShmemThpPolicy::named(policy@) is Some ==> r is Ok,
        trimmed(policy@).len() > 0 && ShmemThpPolicy::named(policy@) is None ==> r == Err::<
            Vec<u8>,
            VfsError,
        >(VfsError::InvalidInput),
        r matches Ok(v) ==> v@.len() == 0,
        *final(policies) == (if trimmed(policy@).len() > 0 && ShmemThpPolicy::named(
            policy@,
        ) is Some {
            Policies { shmem: ShmemThpPolicy::named(policy@).unwrap(), ..*old(policies) }
        } else {
            *old(policies)
        }),
{
    let text: &str = trim(policy);
    proof {
        lemma_trimmed_twice(policy@);
    }
    if text.unicode_len() == 0 {
        return Ok(Vec::new());
    }
    match ShmemThpPolicy::parse(text) {
        Some(parsed) => {
            policies.shmem = parsed;
            Ok(Vec::new())
        },
        None => Err(VfsError::InvalidInput),
    }
}

/// The name of the policy for shared memory.
pub fn current_shmem_thp_policy(policies: &Policies) -> (r: String)
    ensures
        r@ == policies.shmem.name(),
{
    policies.shmem.as_str().to_owned()
}

/// What is left in front is no white space.
proof fn lemma_trimmed_start(s: Seq<char>)
    ensures
        trimmed_start(s).len() > 0 ==> !is_white_space(trimmed_start(s)[0]),
    decreases s.len(),
{
    if s.len() > 0 && is_white_space(s[0]) {
        lemma_trimmed_start(s.skip(1));
    }
}

/// Taking white space away behind leaves the front and no white space behind.
proof fn lemma_trimmed_end(s: Seq<char>)
    ensures
        trimmed_end(s).len() <= s.len(),
        trimmed_end(s).len() > 0 ==> !is_white_space(trimmed_end(s).last()),
        trimmed_end(s).len() > 0 ==> trimmed_end(s)[0] == s[0],
    decreases s.len(),
{
    if s.len() > 0 && is_white_space(s.last()) {
        lemma_trimmed_end(s.drop_last());
    }
}

/// Taking white space away twice is taking it away once.
pub proof fn lemma_trimmed_twice(s: Seq<char>)
    ensures
        trimmed(trimmed(s)) == trimmed(s),
{
    lemma_trimmed_start(s);
    lemma_trimmed_end(trimmed_start(s));
}

/// A policy is what its name names, with any white space around the name.
pub proof fn law_name_round_trip(p: ThpPolicy, q: ShmemThpPolicy, s: Seq<char>)
    ensures
        trimmed(s) == p.name() ==> ThpPolicy::named(s) == Some(p),
        trimmed(s) == q.name() ==> ShmemThpPolicy::named(s) == Some(q),
        ThpPolicy::named(p.name()) == Some(p),
        ShmemThpPolicy::named(q.name()) == Some(q),
{
    reveal_strlit("always");
    reveal_strlit("madvise");
    reveal_strlit("advise");
    reveal_strlit("never");
    assert("always"@[0] == 'a' && "madvise"@[0] == 'm' && "advise"@[0] == 'a' && "never"@[0] == 'n');
    assert("always"@[1] == 'l' && "advise"@[1] == 'd');
    assert("always"@.last() == 's' && "madvise"@.last() == 'e' && "advise"@.last() == 'e'
        && "never"@.last() == 'r');
    assert(trimmed(p.name()) == p.name());
    assert(trimmed(q.name()) == q.name());
}

} // verus!
