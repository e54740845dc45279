//! Prompt profiles: validation, naming, and the operations of the Profiles
//! panel on the stored snapshot.
use vstd::prelude::*;

use crate::decimal::{decimal, decimal_chars, lemma_decimal_injective, lemma_decimal_len};
use crate::text::{append_chars, chars_eq, chars_of, string_of, trim, trim_chars};

verus! {

pub const MAX_PROFILE_NAME_LENGTH: usize = 80;

pub const MAX_PROFILE_PROMPT_LENGTH: usize = 20000;

#[derive(Debug, Clone)]
pub struct Profile {
    pub id: u64,
    pub name: String,
    pub prompt: String,
}

pub struct ProfileView {
    pub id: u64,
    pub name: Seq<char>,
    pub prompt: Seq<char>,
}

impl View for Profile {
    type V = ProfileView;

    open spec fn view(&self) -> ProfileView {
        ProfileView { id: self.id, name: self.name@, prompt: self.prompt@ }
    }
}

impl Profile {
    pub fn duplicate(&self) -> (r: Self)
        ensures
            r@ == self@,
    {
        Profile { id: self.id, name: self.name.clone(), prompt: self.prompt.clone() }
    }
}

/// All profiles and the active selection, as persisted.
#[derive(Debug, Clone)]
pub struct ProfilesSnapshot {
    pub profiles: Vec<Profile>,
    pub active_profile_id: Option<u64>,
    pub next_id: u64,
}

pub struct ProfilesView {
    pub profiles: Seq<ProfileView>,
    pub active: Option<u64>,
    pub next_id: u64,
}

pub open spec fn profile_views(v: Seq<Profile>) -> Seq<ProfileView> {
    Seq::new(v.len(), |i: int| v[i]@)
}

impl View for ProfilesSnapshot {
    type V = ProfilesView;

    open spec fn view(&self) -> ProfilesView {
        ProfilesView {
            profiles: profile_views(self.profiles@),
            active: self.active_profile_id,
            next_id: self.next_id,
        }
    }
}

pub open spec fn default_profiles_view() -> ProfilesView {
    ProfilesView {
        profiles: seq![ProfileView { id: 1, name: "Default profile"@, prompt: Seq::empty() }],
        active: None,
        next_id: 2,
    }
}

impl Default for ProfilesSnapshot {
    fn default() -> (r: Self)
        ensures
            r@ == default_profiles_view(),
    {
        let mut profiles: Vec<Profile> = Vec::new();
        profiles.push(
            Profile { id: 1, name: String::from_str("Default profile"), prompt: String::new() },
        );
        let r = ProfilesSnapshot { profiles, active_profile_id: None, next_id: 2 };
        assert(r@.profiles =~= default_profiles_view().profiles);
        r
    }
}

/// The profile state shared by the commands.
pub struct ProfileStore {
    pub snapshot: ProfilesSnapshot,
}

impl ProfileStore {
    pub fn new() -> (r: Self)
        ensures
            r.snapshot@ == default_profiles_view(),
    {
        ProfileStore { snapshot: ProfilesSnapshot::default() }
    }

    /// The stored snapshot, copied.
    pub fn snapshot(&self) -> (r: ProfilesSnapshot)
        ensures
            r@ == self.snapshot@,
    {
        copy_snapshot(&self.snapshot)
    }
}

#[derive(Debug)]
pub struct SaveProfileRequest {
    pub id: u64,
    pub name: String,
    pub prompt: String,
}

#[derive(Debug)]
pub struct ProfileIdRequest {
    pub id: u64,
}

#[derive(Debug)]
pub struct ProfileCommandError {
    pub code: &'static str,
    pub message: String,
}

impl ProfileCommandError {
    pub fn validation(message: String) -> (r: Self)
        ensures
            r.code@ == "validation_error"@,
            r.message@ == message@,
    {
        ProfileCommandError { code: "validation_error", message }
    }

    pub fn not_found() -> (r: Self)
        ensures
            r.code@ == "profile_not_found"@,
            r.message@ == not_found_message(),
    {
        ProfileCommandError {
            code: "profile_not_found",
            message: String::from_str("The selected profile no longer exists."),
        }
    }

    pub fn storage(message: String) -> (r: Self)
        ensures
            r.code@ == "storage_error"@,
            r.message@ == message@,
    {
        ProfileCommandError { code: "storage_error", message }
    }
}

pub open spec fn not_found_message() -> Seq<char> {
    "The selected profile no longer exists."@
}

pub open spec fn error_view(e: ProfileCommandError) -> (Seq<char>, Seq<char>) {
    (e.code@, e.message@)
}

// ---------------------------------------------------------------------------
// Validation
// ---------------------------------------------------------------------------

/// A profile name is its trimmed text, which must be non-empty and at most
/// 80 characters.
pub open spec fn validate_name_spec(name: Seq<char>) -> Result<Seq<char>, (Seq<char>, Seq<char>)> {
    let n = trim(name);
    if n.len() == 0 {
        Err(("validation_error"@, "Profile name cannot be empty."@))
    } else if n.len() > MAX_PROFILE_NAME_LENGTH {
        Err(("validation_error"@, "Profile name cannot exceed 80 characters."@))
    } else {
        Ok(n)
    }
}

/// A profile prompt of at most 20000 characters, stored trimmed.
pub open spec fn validate_prompt_spec(prompt: Seq<char>) -> Result<Seq<char>, (Seq<char>, Seq<char>)> {
    if prompt.len() > MAX_PROFILE_PROMPT_LENGTH {
        Err(("validation_error"@, "Profile prompt cannot exceed 20000 characters."@))
    } else {
        Ok(trim(prompt))
    }
}

pub open spec fn text_result_view(r: Result<String, ProfileCommandError>) -> Result<Seq<char>, (Seq<char>, Seq<char>)> {
    match r {
        Ok(s) => Ok(s@),
        Err(e) => Err(error_view(e)),
    }
}

pub fn validate_name(name: &str) -> (r: Result<String, ProfileCommandError>)
    ensures
        text_result_view(r) == validate_name_spec(name@),
{
    let chars = chars_of(name);
    let n = trim_chars(&chars);
    if n.len() == 0 {
        return Err(ProfileCommandError::validation(String::from_str("Profile name cannot be empty.")));
    }
    if n.len() > MAX_PROFILE_NAME_LENGTH {
        return Err(
            ProfileCommandError::validation(
                String::from_str("Profile name cannot exceed 80 characters."),
            ),
        );
    }
    Ok(string_of(&n))
}

pub fn validate_prompt(prompt: &str) -> (r: Result<String, ProfileCommandError>)
    ensures
        text_result_view(r) == validate_prompt_spec(prompt@),
{
    let chars = chars_of(prompt);
    if chars.len() > MAX_PROFILE_PROMPT_LENGTH {
        return Err(
            ProfileCommandError::validation(
                String::from_str("Profile prompt cannot exceed 20000 characters."),
            ),
        );
    }
    Ok(string_of(&trim_chars(&chars)))
}

// ---------------------------------------------------------------------------
// Naming
// ---------------------------------------------------------------------------

/// "Profile N".
pub open spec fn candidate_name(n: nat) -> Seq<char> {
    "Profile "@ + decimal(n)
}

pub open spec fn name_taken(ps: Seq<ProfileView>, name: Seq<char>) -> bool {
    exists|i: int| 0 <= i < ps.len() && #[trigger] ps[i].name == name
}

/// `n` is the least number from `ps.len() + 1` on whose "Profile N" is free.
pub open spec fn is_next_profile_number(ps: Seq<ProfileView>, n: nat) -> bool {
    &&& n >= ps.len() + 1
    &&& !name_taken(ps, candidate_name(n))
    &&& forall|m: nat| ps.len() + 1 <= m < n ==> name_taken(ps, #[trigger] candidate_name(m))
}

/// The name of a new profile: "Profile N" for the least free N from the number
/// of profiles plus one.
pub open spec fn next_profile_name_spec(ps: Seq<ProfileView>) -> Seq<char> {
    candidate_name(choose|n: nat| is_next_profile_number(ps, n))
}

/// The name is "Profile K" for some K of at least `n`.
pub open spec fn named_at_least(name: Seq<char>, n: nat) -> bool {
    exists|k: nat| k >= n && name == #[trigger] candidate_name(k)
}

/// How many profiles are named "Profile K" with K at least `n`.
pub open spec fn count_named_at_least(ps: Seq<ProfileView>, n: nat) -> nat
    decreases ps.len(),
{
    if ps.len() == 0 {
        0
    } else {
        count_named_at_least(ps.drop_last(), n) + if named_at_least(ps.last().name, n) {
            1nat
        } else {
            0nat
        }
    }
}

proof fn lemma_candidate_injective(a: nat, b: nat)
    requires
        candidate_name(a) == candidate_name(b),
    ensures
        a == b,
{
    let p = "Profile "@;
    assert(candidate_name(a).skip(p.len() as int) =~= decimal(a));
    assert(candidate_name(b).skip(p.len() as int) =~= decimal(b));
    lemma_decimal_injective(a, b);
}

proof fn lemma_count_bounds(ps: Seq<ProfileView>, n: nat)
    ensures
        count_named_at_least(ps, n + 1) <= count_named_at_least(ps, n),
        count_named_at_least(ps, n) <= ps.len(),
        name_taken(ps, candidate_name(n)) ==> count_named_at_least(ps, n + 1)
            < count_named_at_least(ps, n),
    decreases ps.len(),
{
    if ps.len() > 0 {
        let rest = ps.drop_last();
        lemma_count_bounds(rest, n);
        let x = ps.last().name;
        if named_at_least(x, n + 1) {
            let k = choose|k: nat| k >= n + 1 && x == #[trigger] candidate_name(k);
            assert(named_at_least(x, n));
        }
        if x == candidate_name(n) {
            assert(named_at_least(x, n));
            if named_at_least(x, n + 1) {
                let k = choose|k: nat| k >= n + 1 && x == #[trigger] candidate_name(k);
                lemma_candidate_injective(k, n);
            }
        }
        if name_taken(ps, candidate_name(n)) {
            let i = choose|i: int| 0 <= i < ps.len() && #[trigger] ps[i].name == candidate_name(n);
            if i < ps.len() - 1 {
                assert(rest[i].name == candidate_name(n));
                assert(name_taken(rest, candidate_name(n)));
            }
        }
    }
}

fn name_is_taken(profiles: &Vec<Profile>, candidate: &[char]) -> (r: bool)
    ensures
        r == name_taken(profile_views(profiles@), candidate@),
{
    let ghost ps = profile_views(profiles@);
    let mut i: usize = 0;
    while i < profiles.len()
        invariant
            ps == profile_views(profiles@),
            i <= profiles@.len(),
            forall|j: int| 0 <= j < i ==> ps[j].name != candidate@,
        decreases profiles@.len() - i,
    {
        let name = chars_of(profiles[i].name.as_str());
        if chars_eq(&name, candidate) {
            assert(ps[i as int].name == candidate@);
            return true;
        }
        i = i + 1;
    }
    false
}

fn candidate_chars(n: u128) -> (r: Vec<char>)
    ensures
        r@ == candidate_name(n as nat),
{
    let mut out = chars_of("Profile ");
    let digits = decimal_chars(n);
    append_chars(&mut out, &digits);
    out
}

/// The name of a new profile; see `next_profile_name_spec`.
pub fn next_profile_name(profiles: &Vec<Profile>) -> (r: String)
    ensures
        r@ == next_profile_name_spec(profile_views(profiles@)),
        !name_taken(profile_views(profiles@), r@),
{
    let ghost ps = profile_views(profiles@);
    let len = profiles.len();
    let mut number: u128 = len as u128 + 1;
    proof {
        lemma_count_bounds(ps, number as nat);
    }
    loop
        invariant
            ps == profile_views(profiles@),
            ps.len() == len,
            ps.len() + 1 <= number,
            number + count_named_at_least(ps, number as nat) <= 2 * ps.len() + 1,
            forall|m: nat| ps.len() + 1 <= m < number ==> name_taken(ps, #[trigger] candidate_name(m)),
        decreases count_named_at_least(ps, number as nat),
    {
        let candidate = candidate_chars(number);
        if !name_is_taken(profiles, &candidate) {
            proof {
                assert(is_next_profile_number(ps, number as nat));
                let c = choose|n: nat| is_next_profile_number(ps, n);
                if c < number {
                    assert(name_taken(ps, candidate_name(c)));
                } else if c > number {
                    assert(name_taken(ps, candidate_name(number as nat)));
                }
            }
            return string_of(&candidate);
        }
        proof {
            lemma_count_bounds(ps, number as nat);
            lemma_count_bounds(ps, (number + 1) as nat);
            assert(name_taken(ps, candidate_name(number as nat)));
        }
        number = number + 1;
    }
}

// ---------------------------------------------------------------------------
// Snapshot rules
// ---------------------------------------------------------------------------

pub open spec fn has_id(ps: Seq<ProfileView>, id: u64) -> bool {
    exists|i: int| 0 <= i < ps.len() && #[trigger] ps[i].id == id
}

/// The largest id, or 0 without profiles.
pub open spec fn max_id(ps: Seq<ProfileView>) -> u64
    decreases ps.len(),
{
    if ps.len() == 0 {
        0
    } else {
        let m = max_id(ps.drop_last());
        if ps.last().id > m {
            ps.last().id
        } else {
            m
        }
    }
}

pub open spec fn saturating_inc(x: u64) -> u64 {
    if x == u64::MAX {
        x
    } else {
        (x + 1) as u64
    }
}

/// A loaded snapshot with a next id past every id (and at least 1), and no
/// active selection of a missing profile.
pub open spec fn normalize_spec(v: ProfilesView) -> ProfilesView {
    let a = if v.next_id >= saturating_inc(max_id(v.profiles)) {
        v.next_id
    } else {
        saturating_inc(max_id(v.profiles))
    };
    let next_id = if a >= 1 {
        a
    } else {
        1
    };
    ProfilesView {
        next_id,
        active: match v.active {
            Some(id) => if has_id(v.profiles, id) {
                Some(id)
            } else {
                None
            },
            None => None,
        },
        ..v
    }
}

proof fn lemma_max_id_bounds(ps: Seq<ProfileView>)
    ensures
        forall|i: int| 0 <= i < ps.len() ==> #[trigger] ps[i].id <= max_id(ps),
    decreases ps.len(),
{
    if ps.len() > 0 {
        lemma_max_id_bounds(ps.drop_last());
        assert forall|i: int| 0 <= i < ps.len() implies #[trigger] ps[i].id <= max_id(ps) by {
            if i < ps.len() - 1 {
                assert(ps.drop_last()[i] == ps[i]);
            }
        }
    }
}

fn profiles_have_id(profiles: &Vec<Profile>, id: u64) -> (r: bool)
    ensures
        r == has_id(profile_views(profiles@), id),
{
    let ghost ps = profile_views(profiles@);
    let mut i: usize = 0;
    while i < profiles.len()
        invariant
            ps == profile_views(profiles@),
            i <= profiles@.len(),
            forall|j: int| 0 <= j < i ==> ps[j].id != id,
        decreases profiles@.len() - i,
    {
        if profiles[i].id == id {
            assert(ps[i as int].id == id);
            return true;
        }
        i = i + 1;
    }
    false
}

/// Repairs a loaded snapshot; see `normalize_spec`.
pub fn normalize_snapshot(snapshot: ProfilesSnapshot) -> (r: ProfilesSnapshot)
    ensures
        r@ == normalize_spec(snapshot@),
{
    let mut snapshot = snapshot;
    let ghost ps = snapshot@.profiles;
    let mut m: u64 = 0;
    let mut i: usize = 0;
    assert(ps.take(0) =~= Seq::<ProfileView>::empty());
    while i < snapshot.profiles.len()
        invariant
            ps == snapshot@.profiles,
            i <= ps.len(),
            m == max_id(ps.take(i as int)),
        decreases ps.len() - i,
    {
        assert(ps.take(i as int + 1).drop_last() =~= ps.take(i as int));
        assert(ps.take(i as int + 1).last() == ps[i as int]);
        if snapshot.profiles[i].id > m {
            m = snapshot.profiles[i].id;
        }
        i = i + 1;
    }
    assert(ps.take(ps.len() as int) =~= ps);
    let bumped = if m == u64::MAX {
        m
    } else {
        m + 1
    };
    let a = if snapshot.next_id >= bumped {
        snapshot.next_id
    } else {
        bumped
    };
    snapshot.next_id = if a >= 1 {
        a
    } else {
        1
    };
    if let Some(active_id) = snapshot.active_profile_id {
        if !profiles_have_id(&snapshot.profiles, active_id) {
            snapshot.active_profile_id = None;
        }
    }
    snapshot
}

fn copy_profiles(profiles: &Vec<Profile>) -> (r: Vec<Profile>)
    ensures
        profile_views(r@) == profile_views(profiles@),
{
    let mut out: Vec<Profile> = Vec::new();
    let mut i: usize = 0;
    while i < profiles.len()
        invariant
            i <= profiles@.len(),
            profile_views(out@) =~= profile_views(profiles@).take(i as int),
        decreases profiles@.len() - i,
    {
        let p = profiles[i].duplicate();
        let ghost before = out@;
        out.push(p);
        assert(profile_views(out@) =~= profile_views(before).push(p@));
        assert(profile_views(profiles@).take(i as int + 1) =~= profile_views(profiles@).take(
            i as int,
        ).push(p@));
        i = i + 1;
    }
    assert(profile_views(profiles@).take(profiles@.len() as int) =~= profile_views(profiles@));
    out
}

/// A deep copy.
pub fn copy_snapshot(snapshot: &ProfilesSnapshot) -> (r: ProfilesSnapshot)
    ensures
        r@ == snapshot@,
{
    ProfilesSnapshot {
        profiles: copy_profiles(&snapshot.profiles),
        active_profile_id: snapshot.active_profile_id,
        next_id: snapshot.next_id,
    }
}

/// Adding a profile: it takes the next id and the next free "Profile N" name,
/// with an empty prompt.
pub open spec fn add_spec(v: ProfilesView) -> ProfilesView {
    ProfilesView {
        profiles: v.profiles.push(
            ProfileView {
                id: v.next_id,
                name: next_profile_name_spec(v.profiles),
                prompt: Seq::empty(),
            },
        ),
        next_id: saturating_inc(v.next_id),
        ..v
    }
}

/// Adds a new profile and returns its id; see `add_spec`.
pub fn add_profile(snapshot: &mut ProfilesSnapshot) -> (r: u64)
    ensures
        r == old(snapshot)@.next_id,
        final(snapshot)@ == add_spec(old(snapshot)@),
{
    let id = snapshot.next_id;
    let name = next_profile_name(&snapshot.profiles);
    snapshot.next_id = if id == u64::MAX {
        id
    } else {
        id + 1
    };
    let ghost before = snapshot.profiles@;
    let p = Profile { id, name, prompt: String::new() };
    snapshot.profiles.push(p);
    assert(profile_views(snapshot.profiles@) =~= profile_views(before).push(p@));
    id
}

/// The position of the first profile with `id`, searching from `i`.
pub open spec fn first_index_from(ps: Seq<ProfileView>, id: u64, i: int) -> Option<int>
    decreases ps.len() - i,
{
    if i < 0 || i >= ps.len() {
        None
    } else if ps[i].id == id {
        Some(i)
    } else {
        first_index_from(ps, id, i + 1)
    }
}

pub open spec fn first_index(ps: Seq<ProfileView>, id: u64) -> Option<int> {
    first_index_from(ps, id, 0)
}

proof fn lemma_first_index_found(ps: Seq<ProfileView>, id: u64, i: int)
    requires
        0 <= i,
    ensures
        first_index_from(ps, id, i) matches Some(k) ==> i <= k < ps.len() && ps[k].id == id,
        first_index_from(ps, id, i) is None ==> forall|j: int| i <= j < ps.len() ==> ps[j].id != id,
    decreases ps.len() - i,
{
    if i < ps.len() && ps[i].id != id {
        lemma_first_index_found(ps, id, i + 1);
    }
}

fn find_profile(profiles: &Vec<Profile>, id: u64) -> (r: Option<usize>)
    ensures
        opt_usize(r) == first_index(profile_views(profiles@), id),
        r matches Some(k) ==> k < profiles@.len(),
{
    let ghost ps = profile_views(profiles@);
    let mut i: usize = 0;
    while i < profiles.len()
        invariant
            ps == profile_views(profiles@),
            i <= profiles@.len(),
            first_index(ps, id) == first_index_from(ps, id, i as int),
        decreases profiles@.len() - i,
    {
        if profiles[i].id == id {
            return Some(i);
        }
        i = i + 1;
    }
    None
}

pub open spec fn opt_usize(o: Option<usize>) -> Option<int> {
    match o {
        Some(x) => Some(x as int),
        None => None,
    }
}

/// Saving the editor: the name and prompt are validated, then written to the
/// first profile with the id; a missing profile is an error.
pub open spec fn save_spec(v: ProfilesView, id: u64, name: Seq<char>, prompt: Seq<char>) -> Result<ProfilesView, (Seq<char>, Seq<char>)> {
    match validate_name_spec(name) {
        Err(e) => Err(e),
        Ok(n) => match validate_prompt_spec(prompt) {
            Err(e) => Err(e),
            Ok(p) => match first_index(v.profiles, id) {
                None => Err(("profile_not_found"@, not_found_message())),
                Some(i) => Ok(
                    ProfilesView {
                        profiles: v.profiles.update(i, ProfileView { id: v.profiles[i].id, name: n, prompt: p }),
                        ..v
                    },
                ),
            },
        },
    }
}

pub open spec fn outcome_view(before: ProfilesView, after: ProfilesView, r: Result<(), ProfileCommandError>) -> Result<ProfilesView, (Seq<char>, Seq<char>)> {
    match r {
        Ok(()) => Ok(after),
        Err(e) => Err(error_view(e)),
    }
}

/// Saves a profile from the editor; see `save_spec`. On error nothing changes.
pub fn save_profile(snapshot: &mut ProfilesSnapshot, request: &SaveProfileRequest) -> (r: Result<(), ProfileCommandError>)
    ensures
        outcome_view(old(snapshot)@, final(snapshot)@, r) == save_spec(
            old(snapshot)@,
            request.id,
            request.name@,
            request.prompt@,
        ),
        r is Err ==> final(snapshot)@ == old(snapshot)@,
{
    let name = validate_name(request.name.as_str())?;
    let prompt = validate_prompt(request.prompt.as_str())?;
    match find_profile(&snapshot.profiles, request.id) {
        None => Err(ProfileCommandError::not_found()),
        Some(i) => {
            let ghost before = snapshot.profiles@;
            let id = snapshot.profiles[i].id;
            let p = Profile { id, name, prompt };
            snapshot.profiles.set(i, p);
            assert(profile_views(snapshot.profiles@) =~= profile_views(before).update(i as int, p@));
            Ok(())
        },
    }
}

/// The profiles without those of `id`.
pub open spec fn remove_id(ps: Seq<ProfileView>, id: u64) -> Seq<ProfileView>
    decreases ps.len(),
{
    if ps.len() == 0 {
        ps
    } else if ps.last().id == id {
        remove_id(ps.drop_last(), id)
    } else {
        remove_id(ps.drop_last(), id).push(ps.last())
    }
}

/// Deleting: every profile with the id goes, and so does the active selection
/// of it; deleting a missing profile is an error.
pub open spec fn delete_spec(v: ProfilesView, id: u64) -> Result<ProfilesView, (Seq<char>, Seq<char>)> {
    let kept = remove_id(v.profiles, id);
    if kept.len() == v.profiles.len() {
        Err(("profile_not_found"@, not_found_message()))
    } else {
        Ok(
            ProfilesView {
                profiles: kept,
                active: if v.active == Some(id) {
                    None
                } else {
                    v.active
                },
                ..v
            },
        )
    }
}

/// Deletes a profile; see `delete_spec`. On error nothing changes.
pub fn delete_profile(snapshot: &mut ProfilesSnapshot, id: u64) -> (r: Result<(), ProfileCommandError>)
    ensures
        outcome_view(old(snapshot)@, final(snapshot)@, r) == delete_spec(old(snapshot)@, id),
        r is Err ==> final(snapshot)@ == old(snapshot)@,
{
    let ghost ps = snapshot@.profiles;
    let mut kept: Vec<Profile> = Vec::new();
    let mut i: usize = 0;
    assert(ps.take(0) =~= Seq::<ProfileView>::empty());
    while i < snapshot.profiles.len()
        invariant
            ps == snapshot@.profiles,
            i <= ps.len(),
            profile_views(kept@) == remove_id(ps.take(i as int), id),
        decreases ps.len() - i,
    {
        assert(ps.take(i as int + 1).drop_last() =~= ps.take(i as int));
        assert(ps.take(i as int + 1).last() == ps[i as int]);
        if snapshot.profiles[i].id != id {
            let p = snapshot.profiles[i].duplicate();
            let ghost before = kept@;
            kept.push(p);
            assert(profile_views(kept@) =~= profile_views(before).push(p@));
        }
        i = i + 1;
    }
    assert(ps.take(ps.len() as int) =~= ps);
    if kept.len() == snapshot.profiles.len() {
        return Err(ProfileCommandError::not_found());
    }
    snapshot.profiles = kept;
    if snapshot.active_profile_id == Some(id) {
        snapshot.active_profile_id = None;
    }
    Ok(())
}

/// Activating: the profile must exist.
pub open spec fn activate_spec(v: ProfilesView, id: u64) -> Result<ProfilesView, (Seq<char>, Seq<char>)> {
    if !has_id(v.profiles, id) {
        Err(("profile_not_found"@, not_found_message()))
    } else {
        Ok(ProfilesView { active: Some(id), ..v })
    }
}

/// Makes a profile the active one; see `activate_spec`. On error nothing changes.
pub fn activate_profile(snapshot: &mut ProfilesSnapshot, id: u64) -> (r: Result<(), ProfileCommandError>)
    ensures
        outcome_view(old(snapshot)@, final(snapshot)@, r) == activate_spec(old(snapshot)@, id),
        r is Err ==> final(snapshot)@ == old(snapshot)@,
{
    if !profiles_have_id(&snapshot.profiles, id) {
        return Err(ProfileCommandError::not_found());
    }
    snapshot.active_profile_id = Some(id);
    Ok(())
}

/// The prompt of the active profile, if one is active and exists.
pub open spec fn active_prompt_spec(v: ProfilesView) -> Option<Seq<char>> {
    match v.active {
        None => None,
        Some(a) => match first_index(v.profiles, a) {
            Some(i) => Some(v.profiles[i].prompt),
            None => None,
        },
    }
}

pub fn active_prompt(snapshot: &ProfilesSnapshot) -> (r: Option<String>)
    ensures
        match r {
            Some(p) => active_prompt_spec(snapshot@) == Some(p@),
            None => active_prompt_spec(snapshot@) is None,
        },
{
    match snapshot.active_profile_id {
        None => None,
        Some(active_id) => match find_profile(&snapshot.profiles, active_id) {
            Some(i) => Some(snapshot.profiles[i].prompt.clone()),
            None => None,
        },
    }
}

// ---------------------------------------------------------------------------
// Laws
// ---------------------------------------------------------------------------

/// The active selection names an existing profile.
pub open spec fn active_is_valid(v: ProfilesView) -> bool {
    v.active matches Some(id) ==> has_id(v.profiles, id)
}

/// Every id is below the next id.
pub open spec fn ids_below_next(v: ProfilesView) -> bool {
    forall|i: int| 0 <= i < v.profiles.len() ==> #[trigger] v.profiles[i].id < v.next_id
}

/// No two profiles share an id.
pub open spec fn ids_unique(v: ProfilesView) -> bool {
    forall|i: int, j: int|
        0 <= i < j < v.profiles.len() ==> #[trigger] v.profiles[i].id != #[trigger] v.profiles[j].id
}

proof fn lemma_remove_id_keeps(ps: Seq<ProfileView>, id: u64, other: u64)
    requires
        other != id,
        has_id(ps, other),
    ensures
        has_id(remove_id(ps, id), other),
    decreases ps.len(),
{
    let rest = ps.drop_last();
    let r = remove_id(ps, id);
    if ps.last().id == other {
        assert(r[r.len() - 1].id == other);
    } else {
        let k = choose|k: int| 0 <= k < ps.len() && #[trigger] ps[k].id == other;
        assert(rest[k].id == other);
        lemma_remove_id_keeps(rest, id, other);
        let j = choose|j: int| 0 <= j < remove_id(rest, id).len() && #[trigger] remove_id(rest, id)[j].id == other;
        assert(r[j] == remove_id(rest, id)[j]);
    }
}

proof fn lemma_remove_id_len(ps: Seq<ProfileView>, id: u64)
    ensures
        remove_id(ps, id).len() <= ps.len(),
        remove_id(ps, id).len() == ps.len() <==> !has_id(ps, id),
    decreases ps.len(),
{
    if ps.len() > 0 {
        let rest = ps.drop_last();
        lemma_remove_id_len(rest, id);
        if has_id(ps, id) && ps.last().id != id {
            let k = choose|k: int| 0 <= k < ps.len() && #[trigger] ps[k].id == id;
            assert(rest[k].id == id);
        }
        if has_id(rest, id) {
            let k = choose|k: int| 0 <= k < rest.len() && #[trigger] rest[k].id == id;
            assert(ps[k].id == id);
        }
        if ps.last().id == id {
            assert(ps[ps.len() - 1].id == id);
        }
    }
}

/// Saving changes names and prompts only: ids, their order, the selection and
/// the next id stay.
proof fn lemma_save_keeps_ids(v: ProfilesView, id: u64, name: Seq<char>, prompt: Seq<char>)
    ensures
        save_spec(v, id, name, prompt) matches Ok(w) ==> {
            &&& w.profiles.len() == v.profiles.len()
            &&& forall|i: int| 0 <= i < w.profiles.len() ==> #[trigger] w.profiles[i].id == v.profiles[i].id
            &&& w.active == v.active
            &&& w.next_id == v.next_id
        },
{
    lemma_first_index_found(v.profiles, id, 0);
}

/// Law: once loaded, the active selection names an existing profile, and the
/// next id is past every id unless an id is already the largest possible.
pub proof fn law_normalize_repairs(v: ProfilesView)
    ensures
        active_is_valid(normalize_spec(v)),
        max_id(v.profiles) < u64::MAX ==> ids_below_next(normalize_spec(v)),
        normalize_spec(v).next_id >= 1,
{
    lemma_max_id_bounds(v.profiles);
}

/// Law: every profile operation keeps the active selection valid.
pub proof fn law_operations_keep_active_valid(v: ProfilesView, id: u64, name: Seq<char>, prompt: Seq<char>)
    requires
        active_is_valid(v),
    ensures
        active_is_valid(add_spec(v)),
        save_spec(v, id, name, prompt) matches Ok(w) ==> active_is_valid(w),
        delete_spec(v, id) matches Ok(w) ==> active_is_valid(w),
        activate_spec(v, id) matches Ok(w) ==> active_is_valid(w),
{
    if let Some(a) = v.active {
        let k = choose|k: int| 0 <= k < v.profiles.len() && #[trigger] v.profiles[k].id == a;
        assert(add_spec(v).profiles[k].id == a);
        lemma_save_keeps_ids(v, id, name, prompt);
        if let Ok(w) = save_spec(v, id, name, prompt) {
            assert(w.profiles[k].id == a);
        }
        if a != id {
            lemma_remove_id_keeps(v.profiles, id, a);
        }
    }
}

/// Law: ids stay unique and below the next id through every operation (adding
/// needs a next id below the largest possible one).
pub proof fn law_operations_keep_ids(v: ProfilesView, id: u64, name: Seq<char>, prompt: Seq<char>)
    requires
        ids_unique(v),
        ids_below_next(v),
    ensures
        v.next_id < u64::MAX ==> ids_unique(add_spec(v)) && ids_below_next(add_spec(v)),
        save_spec(v, id, name, prompt) matches Ok(w) ==> ids_unique(w) && ids_below_next(w),
        delete_spec(v, id) matches Ok(w) ==> ids_unique(w) && ids_below_next(w),
        activate_spec(v, id) matches Ok(w) ==> ids_unique(w) && ids_below_next(w),
{
    let a = add_spec(v);
    if v.next_id < u64::MAX {
        assert forall|i: int, j: int| 0 <= i < j < a.profiles.len() implies #[trigger] a.profiles[i].id != #[trigger] a.profiles[j].id by {
            if j == v.profiles.len() {
                assert(a.profiles[i].id == v.profiles[i].id);
            } else {
                assert(a.profiles[i] == v.profiles[i]);
                assert(a.profiles[j] == v.profiles[j]);
            }
        }
        assert forall|i: int| 0 <= i < a.profiles.len() implies #[trigger] a.profiles[i].id < a.next_id by {
            if i < v.profiles.len() {
                assert(a.profiles[i] == v.profiles[i]);
            }
        }
    }
    lemma_save_keeps_ids(v, id, name, prompt);
    if let Ok(w) = save_spec(v, id, name, prompt) {
        assert forall|i: int, j: int| 0 <= i < j < w.profiles.len() implies #[trigger] w.profiles[i].id != #[trigger] w.profiles[j].id by {
            assert(w.profiles[i].id == v.profiles[i].id);
            assert(w.profiles[j].id == v.profiles[j].id);
        }
        assert forall|i: int| 0 <= i < w.profiles.len() implies #[trigger] w.profiles[i].id < w.next_id by {
            assert(w.profiles[i].id == v.profiles[i].id);
        }
    }
    if let Ok(w) = delete_spec(v, id) {
        lemma_remove_id_subsequence(v.profiles, id);
        let r = remove_id(v.profiles, id);
        assert forall|i: int, j: int| 0 <= i < j < w.profiles.len() implies #[trigger] w.profiles[i].id != #[trigger] w.profiles[j].id by {
            let f = remove_id_map(v.profiles, id);
            assert(r[i] == v.profiles[f[i]]);
            assert(r[j] == v.profiles[f[j]]);
        }
        assert forall|i: int| 0 <= i < w.profiles.len() implies #[trigger] w.profiles[i].id < w.next_id by {
            let f = remove_id_map(v.profiles, id);
            assert(r[i] == v.profiles[f[i]]);
        }
    }
}

/// The positions in `ps` of the profiles that `remove_id` keeps.
pub open spec fn remove_id_map(ps: Seq<ProfileView>, id: u64) -> Seq<int>
    decreases ps.len(),
{
    if ps.len() == 0 {
        Seq::empty()
    } else if ps.last().id == id {
        remove_id_map(ps.drop_last(), id)
    } else {
        remove_id_map(ps.drop_last(), id).push(ps.len() - 1)
    }
}

proof fn lemma_remove_id_subsequence(ps: Seq<ProfileView>, id: u64)
    ensures
        remove_id_map(ps, id).len() == remove_id(ps, id).len(),
        forall|i: int| 0 <= i < remove_id(ps, id).len() ==> 0 <= #[trigger] remove_id_map(ps, id)[i] < ps.len(),
        forall|i: int| 0 <= i < remove_id(ps, id).len() ==> #[trigger] remove_id(ps, id)[i] == ps[remove_id_map(ps, id)[i]],
        forall|i: int, j: int| 0 <= i < j < remove_id(ps, id).len() ==> #[trigger] remove_id_map(ps, id)[i] < #[trigger] remove_id_map(ps, id)[j],
    decreases ps.len(),
{
    if ps.len() > 0 {
        let rest = ps.drop_last();
        lemma_remove_id_subsequence(rest, id);
        assert forall|i: int| 0 <= i < remove_id(rest, id).len() implies #[trigger] remove_id(rest, id)[i] == ps[remove_id_map(rest, id)[i]] by {
            assert(rest[remove_id_map(rest, id)[i]] == ps[remove_id_map(rest, id)[i]]);
        }
    }
}

/// Law: after activating a profile, Mode 1/2 reads that profile's prompt.
pub proof fn law_activated_prompt_is_used(v: ProfilesView, id: u64)
    ensures
        activate_spec(v, id) matches Ok(w) ==> (first_index(v.profiles, id) matches Some(i)
            && active_prompt_spec(w) == Some(v.profiles[i].prompt)),
{
    if has_id(v.profiles, id) {
        lemma_first_index_found(v.profiles, id, 0);
        let k = choose|k: int| 0 <= k < v.profiles.len() && #[trigger] v.profiles[k].id == id;
        assert(first_index(v.profiles, id) is Some);
    }
}

/// Law: deleting the active profile leaves no active profile.
pub proof fn law_deleting_active_clears_selection(v: ProfilesView)
    requires
        v.active is Some,
    ensures
        delete_spec(v, v.active->0) matches Ok(w) ==> w.active is None,
{
}

/// Law: deleting a profile other than the active one keeps the selection, so
/// the active profile's prompt is still the one Mode 1/2 uses.
pub proof fn law_deleting_other_keeps_selection(v: ProfilesView, id: u64)
    requires
        v.active != Some(id),
    ensures
        delete_spec(v, id) matches Ok(w) ==> w.active == v.active && active_prompt_spec(w)
            == active_prompt_spec(v),
{
    if delete_spec(v, id) is Ok {
        let a = v.active;
        if let Some(x) = a {
            lemma_remove_keeps_first_prompt(v.profiles, id, x);
        }
    }
}

/// The prompt of the first profile with id `a`.
pub open spec fn first_prompt(ps: Seq<ProfileView>, a: u64) -> Option<Seq<char>> {
    match first_index(ps, a) {
        Some(k) => Some(ps[k].prompt),
        None => None,
    }
}

proof fn lemma_first_index_from_push(ps: Seq<ProfileView>, x: ProfileView, a: u64, i: int)
    requires
        0 <= i <= ps.len(),
    ensures
        first_index_from(ps.push(x), a, i) == match first_index_from(ps, a, i) {
            Some(k) => Some(k),
            None => if x.id == a {
                Some(ps.len() as int)
            } else {
                None
            },
        },
    decreases ps.len() - i,
{
    if i < ps.len() {
        assert(ps.push(x)[i] == ps[i]);
        lemma_first_index_from_push(ps, x, a, i + 1);
    } else {
        assert(ps.push(x)[i] == x);
        assert(first_index_from(ps.push(x), a, i + 1) is None);
    }
}

proof fn lemma_remove_keeps_first_prompt(ps: Seq<ProfileView>, id: u64, a: u64)
    requires
        a != id,
    ensures
        first_prompt(remove_id(ps, id), a) == first_prompt(ps, a),
    decreases ps.len(),
{
    if ps.len() > 0 {
        let p = ps.drop_last();
        let x = ps.last();
        lemma_remove_keeps_first_prompt(p, id, a);
        assert(p.push(x) =~= ps);
        lemma_first_index_from_push(p, x, a, 0);
        if x.id != id {
            let r = remove_id(p, id);
            lemma_first_index_from_push(r, x, a, 0);
            match first_index(r, a) {
                Some(k) => {
                    lemma_first_index_found(r, a, 0);
                    assert(r.push(x)[k] == r[k]);
                },
                None => {},
            }
            match first_index(p, a) {
                Some(k) => {
                    lemma_first_index_found(p, a, 0);
                    assert(p.push(x)[k] == p[k]);
                },
                None => {},
            }
        } else {
            match first_index(p, a) {
                Some(k) => {
                    lemma_first_index_found(p, a, 0);
                    assert(p.push(x)[k] == p[k]);
                },
                None => {},
            }
        }
    }
}

proof fn lemma_next_number_exists(ps: Seq<ProfileView>, start: nat)
    requires
        start >= ps.len() + 1,
        forall|m: nat| ps.len() + 1 <= m < start ==> name_taken(ps, #[trigger] candidate_name(m)),
    ensures
        exists|n: nat| is_next_profile_number(ps, n),
    decreases count_named_at_least(ps, start),
{
    if name_taken(ps, candidate_name(start)) {
        lemma_count_bounds(ps, start);
        lemma_next_number_exists(ps, start + 1);
    } else {
        assert(is_next_profile_number(ps, start));
    }
}

/// Law: a new profile's name is "Profile N" for a number N past the number of
/// profiles, and no existing profile has that name.
pub proof fn law_new_profile_name_is_fresh(v: ProfilesView)
    ensures
        exists|n: nat| n >= v.profiles.len() + 1 && next_profile_name_spec(v.profiles) == candidate_name(n),
        !name_taken(v.profiles, next_profile_name_spec(v.profiles)),
{
    lemma_next_number_exists(v.profiles, v.profiles.len() + 1);
    let n = choose|n: nat| is_next_profile_number(v.profiles, n);
    assert(next_profile_name_spec(v.profiles) == candidate_name(n));
}

/// Law: deleting fails exactly when no profile has the id.
pub proof fn law_delete_fails_only_for_missing(v: ProfilesView, id: u64)
    ensures
        delete_spec(v, id) is Err <==> !has_id(v.profiles, id),
{
    lemma_remove_id_len(v.profiles, id);
}

proof fn lemma_max_id_member(ps: Seq<ProfileView>)
    ensures
        max_id(ps) == 0 || exists|i: int| 0 <= i < ps.len() && #[trigger] ps[i].id == max_id(ps),
    decreases ps.len(),
{
    if ps.len() > 0 {
        let rest = ps.drop_last();
        lemma_max_id_member(rest);
        if ps.last().id <= max_id(rest) && max_id(rest) != 0 {
            let i = choose|i: int| 0 <= i < rest.len() && #[trigger] rest[i].id == max_id(rest);
            assert(ps[i].id == max_id(ps));
        } else if ps.last().id > max_id(rest) {
            assert(ps[ps.len() - 1].id == max_id(ps));
        }
    }
}

/// Law: a snapshot the app saved (its selection valid, every id below the
/// next id, the next id at least 1) loads back unchanged, so profiles and the
/// active selection survive a restart.
pub proof fn law_saved_snapshot_loads_unchanged(v: ProfilesView)
    requires
        active_is_valid(v),
        ids_below_next(v),
        v.next_id >= 1,
    ensures
        normalize_spec(v) == v,
{
    lemma_max_id_member(v.profiles);
}

} // verus!
