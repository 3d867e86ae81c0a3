//! The decisions of a challenge build and of a flag submission: the single-flight claim
//! on a build, which owner a build may have, which flag it embeds, what is stopped when
//! an artifact is replaced, and whether a submitted flag is correct.
use vstd::prelude::*;

use crate::conductor::BuildError;
use crate::dynfmt::{arg_views, render, FormatError};
use crate::registry::{
    has_key, lemma_filter_from, selected, selects, unselected, BuildKey, BuildLocks, InstanceKey, InstanceRegistry,
    RunningInstance, Selector,
};
use crate::text::chars_of;

verus! {

/// Whether a challenge of the given kind may be built for `owner`: a dynamic challenge is
/// built per user, a static one once for everybody.
pub open spec fn owner_fits(dynamic: bool, owner: Option<i32>) -> bool {
    dynamic == (owner is Some)
}

/// Claims the build of `key`; refused while a build for it is in progress.
pub fn claim_build(locks: &mut BuildLocks, key: BuildKey) -> (r: Result<(), BuildError>)
    ensures
        old(locks)@.contains(key) ==> (r matches Err(BuildError::InProgress)) && final(locks)@ == old(locks)@,
        !old(locks)@.contains(key) ==> r is Ok && final(locks)@ == old(locks)@.insert(key),
{
    match locks.acquire(key) {
        Ok(()) => Ok(()),
        Err(_) => Err(BuildError::InProgress),
    }
}

/// Checks that a build's owner fits the challenge.
pub fn check_owner(dynamic: bool, owner: Option<i32>) -> (r: Result<(), BuildError>)
    ensures
        dynamic && owner is None ==> r matches Err(BuildError::OwnerRequired),
        !dynamic && owner is Some ==> r matches Err(BuildError::OwnerNotAllowed),
        r is Ok <==> owner_fits(dynamic, owner),
{
    if dynamic && owner.is_none() {
        return Err(BuildError::OwnerRequired);
    }
    if !dynamic && owner.is_some() {
        return Err(BuildError::OwnerNotAllowed);
    }
    Ok(())
}

/// Whose artifact a user works with: their own for a dynamic challenge, the shared one
/// for a static challenge.
pub fn artifact_owner(dynamic: bool, user: i32) -> (r: Option<i32>)
    ensures
        r == if dynamic { Some(user) } else { None::<i32> },
{
    if dynamic {
        Some(user)
    } else {
        None
    }
}

/// Relies on uuid's `Uuid::new_v4` and its hyphenated text form, which is 36 characters.
#[verifier::external_body]
fn random_token() -> (r: String)
    ensures
        r@.len() == 36,
{
    uuid::Uuid::new_v4().hyphenated().to_string()
}

/// A fresh random name for the storage of a new artifact.
pub fn storage_name() -> (r: String)
    ensures
        r@.len() == 36,
{
    random_token()
}

/// The flag of a build: the stored flag of a static challenge as it is, or the template
/// of a dynamic one with `token` in its placeholder.
pub open spec fn flag_of(dynamic: bool, stored: Seq<char>, token: Seq<char>) -> Result<Seq<char>, FormatError> {
    if dynamic {
        render(stored, seq![token])
    } else {
        Ok(stored)
    }
}

/// The flag of a build with the random token `token`.
pub fn resolve_flag(dynamic: bool, stored: &str, token: &str) -> (r: Result<String, BuildError>)
    ensures
        match flag_of(dynamic, stored@, token@) {
            Ok(f) => r matches Ok(s) && s@ == f,
            Err(e) => r matches Err(BuildError::FlagTemplate(x)) && x == e,
        },
{
    if !dynamic {
        return Ok(stored.to_string());
    }
    let args: [&str; 1] = [token];
    proof {
        assert(arg_views(args@) =~= seq![token@]);
    }
    match crate::dynfmt::format(stored, &args) {
        Ok(s) => Ok(s),
        Err(e) => Err(BuildError::FlagTemplate(e)),
    }
}

/// The flag of a new build: the stored flag of a static challenge, or the template of a
/// dynamic one rendered with a fresh random token of 36 characters.
pub fn build_flag(dynamic: bool, stored: &str) -> (r: Result<String, BuildError>)
    ensures
        exists|t: Seq<char>| t.len() == 36 && match flag_of(dynamic, stored@, t) {
            Ok(f) => r matches Ok(s) && s@ == f,
            Err(e) => r matches Err(BuildError::FlagTemplate(x)) && x == e,
        },
        !dynamic ==> (r matches Ok(s) && s@ == stored@),
{
    if !dynamic {
        let r = stored.to_string();
        proof {
            let t = Seq::new(36, |i: int| 'a');
            assert(flag_of(dynamic, stored@, t) == Ok::<Seq<char>, FormatError>(stored@));
        }
        return Ok(r);
    }
    match generate_random_flag(stored) {
        Ok(s) => Ok(s),
        Err(e) => Err(BuildError::FlagTemplate(e)),
    }
}

/// Renders template `fmt` with a fresh random token of 36 characters.
pub fn generate_random_flag(fmt: &str) -> (r: Result<String, FormatError>)
    ensures
        exists|t: Seq<char>| t.len() == 36 && match render(fmt@, seq![t]) {
            Ok(f) => r matches Ok(s) && s@ == f,
            Err(e) => r == Err::<String, FormatError>(e),
        },
{
    let token = random_token();
    let args: [&str; 1] = [token.as_str()];
    proof {
        assert(arg_views(args@) =~= seq![token@]);
    }
    crate::dynfmt::format(fmt, &args)
}

/// The instances tied to the artifact of `key`: those of its owner on its challenge, or of
/// every user on it for a static artifact.
pub open spec fn artifact_scope(key: BuildKey) -> Selector {
    Selector::Scope { user: key.owner, challenge: key.challenge }
}

/// Stops what belongs to the artifact of `key` that is being replaced or removed: every
/// running instance of it leaves the registry and is returned, so that its container can
/// be stopped.
pub fn release_artifact(registry: &mut InstanceRegistry, key: BuildKey) -> (r: Vec<RunningInstance>)
    requires
        old(registry).wf(),
    ensures
        final(registry).wf(),
        final(registry).starting() == old(registry).starting(),
        final(registry).instances() == old(registry).instances().filter(unselected(artifact_scope(key))),
        r@ == old(registry).instances().filter(selected(artifact_scope(key))),
        forall|k: InstanceKey| k.challenge == key.challenge && (key.owner matches Some(u) ==> k.user == u)
            ==> !#[trigger] final(registry).running(k),
{
    let r = registry.take(Selector::Scope { user: key.owner, challenge: key.challenge });
    proof {
        let s = final(registry).instances();
        assert forall|k: InstanceKey| k.challenge == key.challenge && (key.owner matches Some(u) ==> k.user == u)
            implies !#[trigger] final(registry).running(k) by {
            if has_key(s, k) {
                let i = choose|i: int| 0 <= i < s.len() && s[i].key == k;
                old(registry).instances().lemma_filter_pred(unselected(artifact_scope(key)), i);
            }
        }
    }
    r
}

/// Replacing an artifact stops every instance tied to it: none stays in the registry, each
/// is handed out to be stopped, and replacing it once more hands out nothing.
pub proof fn lemma_replace_stops_instances(s: Seq<RunningInstance>, key: BuildKey)
    ensures
        forall|i: int| 0 <= i < s.filter(unselected(artifact_scope(key))).len()
            ==> !selects(artifact_scope(key), #[trigger] s.filter(unselected(artifact_scope(key)))[i]),
        forall|i: int| 0 <= i < s.len() && selects(artifact_scope(key), #[trigger] s[i])
            ==> s.filter(selected(artifact_scope(key))).contains(s[i]),
        s.filter(unselected(artifact_scope(key))).filter(selected(artifact_scope(key))).len() == 0,
{
    let sel = artifact_scope(key);
    let kept = s.filter(unselected(sel));
    assert forall|i: int| 0 <= i < kept.len() implies !selects(sel, #[trigger] kept[i]) by {
        s.lemma_filter_pred(unselected(sel), i);
    }
    assert forall|i: int| 0 <= i < s.len() && selects(sel, #[trigger] s[i]) implies s.filter(selected(sel)).contains(s[i]) by {
        s.lemma_filter_contains(selected(sel), i);
    }
    let again = kept.filter(selected(sel));
    if again.len() > 0 {
        kept.lemma_filter_pred(selected(sel), 0);
        lemma_filter_from(kept, selected(sel), 0);
    }
}

/// Whether two strings hold the same characters.
pub fn same_text(a: &str, b: &str) -> (r: bool)
    ensures
        r == (a@ == b@),
{
    let x = chars_of(a);
    let y = chars_of(b);
    if x.len() != y.len() {
        return false;
    }
    let mut i: usize = 0;
    while i < x.len()
        invariant
            x@ == a@,
            y@ == b@,
            x@.len() == y@.len(),
            i <= x@.len(),
            forall|j: int| 0 <= j < i ==> x@[j] == y@[j],
        decreases x@.len() - i,
    {
        if x[i] != y[i] {
            return false;
        }
        i = i + 1;
    }
    proof {
        assert(a@ =~= b@);
    }
    true
}

/// The flag a submission is held to: the flag of the user's own artifact for a dynamic
/// challenge, else the challenge's flag.
pub open spec fn expected_flag(dynamic: bool, challenge_flag: Seq<char>, artifact_flag: Seq<char>) -> Seq<char> {
    if dynamic {
        artifact_flag
    } else {
        challenge_flag
    }
}

/// Whether `submitted` solves the challenge.
pub fn check_flag(dynamic: bool, challenge_flag: &str, artifact_flag: &str, submitted: &str) -> (r: bool)
    ensures
        r == (submitted@ == expected_flag(dynamic, challenge_flag@, artifact_flag@)),
{
    if dynamic {
        same_text(submitted, artifact_flag)
    } else {
        same_text(submitted, challenge_flag)
    }
}

/// Whether a solved dynamic challenge's artifact is removed, under the configured policy.
pub fn clears_on_solve(clear_on_solved: bool, dynamic: bool) -> (r: bool)
    ensures
        r == (clear_on_solved && dynamic),
{
    clear_on_solved && dynamic
}

/// Whether a challenge is shown to everybody: it is public, and belongs to a problem set
/// unless uncategorized challenges are shown.
pub fn is_publicly_available(show_uncategorized: bool, problemset: Option<i32>, public: bool) -> (r: bool)
    ensures
        r == ((show_uncategorized || problemset is Some) && public),
{
    (show_uncategorized || problemset.is_some()) && public
}

} // verus!
