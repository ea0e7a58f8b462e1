//! Who the constructs are: their nameplates.

use std::collections::HashMap;
use vstd::prelude::*;
use crate::clock::{Duration, Instant};
use crate::contradictionary::copy_opt;
use crate::text;

verus! {

/// Where the nameplates are published.
pub const DEFAULT_NAMEPLATES_URL: &'static str =
    "https://raw.githubusercontent.com/butterflyskies/construct-nameplates/main/nameplates.yaml";

/// A construct's nameplate.
#[derive(Debug, PartialEq, Eq)]
pub struct Nameplate {
    pub name: String,
    pub pronouns: Vec<String>,
    pub bio: Option<String>,
}

/// A [`Nameplate`] as a value.
#[verifier::ext_equal]
pub struct PlateView {
    pub name: Seq<char>,
    pub pronouns: Seq<Seq<char>>,
    pub bio: Option<Seq<char>>,
}

impl View for Nameplate {
    type V = PlateView;

    open spec fn view(&self) -> PlateView {
        PlateView {
            name: self.name@,
            pronouns: text::texts(self.pronouns@),
            bio: text::text_opt(self.bio),
        }
    }
}

impl Clone for Nameplate {
    fn clone(&self) -> (r: Self)
        ensures
            r@ == self@,
    {
        let mut pronouns: Vec<String> = Vec::new();
        let mut i: usize = 0;
        while i < self.pronouns.len()
            invariant
                i <= self.pronouns@.len(),
                pronouns@.len() == i,
                forall|k: int| 0 <= k < i ==> (#[trigger] pronouns@[k])@ == self.pronouns@[k]@,
            decreases self.pronouns@.len() - i,
        {
            pronouns.push(self.pronouns[i].clone());
            i = i + 1;
        }
        assert(text::texts(pronouns@) =~= text::texts(self.pronouns@));
        Nameplate { name: self.name.clone(), pronouns, bio: copy_opt(&self.bio) }
    }
}

/// The nameplates of a file, by the ids of the users. What stands under another key
/// than an id is passed over, and what stands under an id once more counts.
pub open spec fn plates_of(file: Seq<(String, Nameplate)>) -> Map<u64, Nameplate>
    decreases file.len(),
{
    if file.len() == 0 {
        Map::empty()
    } else {
        let before = plates_of(file.drop_last());
        match text::parsed_u64(file.last().0@) {
            Some(id) => before.insert(id, file.last().1),
            None => before,
        }
    }
}

/// The nameplates of a file, by the ids of the users.
pub fn entries_of(file: Vec<(String, Nameplate)>) -> (r: HashMap<u64, Nameplate>)
    ensures
        r@.dom() == plates_of(file@).dom(),
        forall|id: u64|
            r@.contains_key(id) ==> (#[trigger] r@[id])@ == plates_of(file@)[id]@,
{
    let mut out: HashMap<u64, Nameplate> = HashMap::new();
    let mut i: usize = 0;
    assert(plates_of(file@.take(0)) =~= Map::empty());
    while i < file.len()
        invariant
            i <= file@.len(),
            out@.dom() == plates_of(file@.take(i as int)).dom(),
            forall|id: u64|
                out@.contains_key(id) ==> (#[trigger] out@[id])@ == plates_of(
                    file@.take(i as int),
                )[id]@,
        decreases file@.len() - i,
    {
        proof {
            assert(file@.take(i + 1).drop_last() =~= file@.take(i as int));
            assert(file@.take(i + 1).last() == file@[i as int]);
        }
        if let Some(id) = text::parse_u64(file[i].0.as_str()) {
            let plate: Nameplate = file[i].1.clone();
            out.insert(id, plate);
            assert(out@.dom() =~= plates_of(file@.take(i + 1)).dom());
        }
        i = i + 1;
    }
    assert(file@.take(file@.len() as int) =~= file@);
    out
}

/// What has been fetched, and when.
pub struct CachedNameplates {
    pub entries: HashMap<u64, Nameplate>,
    pub fetched_at: Instant,
}

/// The nameplates, fetched anew when they are too old.
pub struct NameplateProvider {
    pub cache: Option<CachedNameplates>,
    pub ttl: Duration,
}

/// What is known of a user.
pub enum Lookup {
    /// This, which may be nothing.
    Known(Option<Nameplate>),
    /// The nameplates have to be fetched first.
    Fetch,
}

/// The nameplate of a user, as a value.
pub open spec fn plate_in(entries: Map<u64, Nameplate>, user_id: u64) -> Option<PlateView> {
    if entries.contains_key(user_id) {
        Some(entries[user_id]@)
    } else {
        None
    }
}

/// The value of a nameplate that may not be there.
pub open spec fn plate_opt(plate: Option<Nameplate>) -> Option<PlateView> {
    match plate {
        Some(p) => Some(p@),
        None => None,
    }
}

fn find_plate(entries: &HashMap<u64, Nameplate>, user_id: u64) -> (r: Option<Nameplate>)
    ensures
        plate_opt(r) == plate_in(entries@, user_id),
{
    match entries.get(&user_id) {
        Some(plate) => Some(plate.clone()),
        None => None,
    }
}

impl NameplateProvider {
    /// Whether what has been fetched still counts.
    pub open spec fn fresh(&self, now: Instant) -> bool {
        self.cache matches Some(c) && now.since(c.fetched_at).nanos < self.ttl.nanos
    }

    /// Nothing has been fetched.
    pub fn new(ttl: Duration) -> (r: Self)
        ensures
            r.cache is None,
            r.ttl == ttl,
    {
        NameplateProvider { cache: None, ttl }
    }

    /// What is known of a user.
    pub fn lookup(&self, user_id: u64, now: Instant) -> (r: Lookup)
        ensures
            if self.fresh(now) {
                r matches Lookup::Known(p) && plate_opt(p) == plate_in(
                    self.cache->0.entries@,
                    user_id,
                )
            } else {
                r is Fetch
            },
    {
        if let Some(cached) = &self.cache {
            let age: Duration = now.saturating_duration_since(cached.fetched_at);
            if age.nanos < self.ttl.nanos {
                return Lookup::Known(find_plate(&cached.entries, user_id));
            }
        }
        Lookup::Fetch
    }

    /// Takes note of what was fetched, and says what is known of a user. A fetch that
    /// failed changes nothing, and nothing is known then.
    pub fn fetched(
        &mut self,
        user_id: u64,
        entries: Option<HashMap<u64, Nameplate>>,
        now: Instant,
    ) -> (r: Option<Nameplate>)
        ensures
            final(self).ttl == old(self).ttl,
            match entries {
                Some(e) => {
                    &&& final(self).cache == Some(CachedNameplates { entries: e, fetched_at: now })
                    &&& plate_opt(r) == plate_in(e@, user_id)
                },
                None => final(self).cache == old(self).cache && r is None,
            },
    {
        match entries {
            Some(e) => {
                let r: Option<Nameplate> = find_plate(&e, user_id);
                self.cache = Some(CachedNameplates { entries: e, fetched_at: now });
                r
            },
            None => None,
        }
    }
}

/// The name of a user, with the pronouns on the nameplate behind it.
pub open spec fn display_text(plate: Option<PlateView>, display_name: Seq<char>) -> Seq<char> {
    match plate {
        Some(p) if p.pronouns.len() > 0 => display_name + " ("@ + text::joined(
            p.pronouns,
            " or "@,
        ) + ")"@,
        _ => display_name,
    }
}

/// The name of a user, with the pronouns on the nameplate behind it.
pub fn resolve_display_name(plate: &Option<Nameplate>, display_name: &str) -> (r: String)
    ensures
        r@ == display_text(plate_opt(*plate), display_name@),
{
    if let Some(p) = plate {
        if p.pronouns.len() > 0 {
            let pronouns: String = text::join(&p.pronouns, " or ");
            let mut out: String = display_name.to_owned();
            out.append(" (");
            out.append(pronouns.as_str());
            out.append(")");
            return out;
        }
    }
    display_name.to_owned()
}

/// What was fetched counts for its time, and not from then on; what was never fetched
/// does not count.
pub proof fn law_nameplates_count_for_their_time(provider: NameplateProvider, now: Instant)
    ensures
        provider.cache is None ==> !provider.fresh(now),
        provider.cache matches Some(c) ==> (c.fetched_at.nanos <= now.nanos ==> (provider.fresh(now)
            <==> now.nanos - c.fetched_at.nanos < provider.ttl.nanos)),
{
}

/// A nameplate belongs to the user whose id it stands under, the last one where there are
/// several; one that stands under no id belongs to nobody.
pub proof fn law_nameplates_belong_to_their_users(
    file: Seq<(String, Nameplate)>,
    line: (String, Nameplate),
    user_id: u64,
)
    ensures
        text::parsed_u64(line.0@) == Some(user_id) ==> plate_in(
            plates_of(file.push(line)),
            user_id,
        ) == Some(line.1@),
        text::parsed_u64(line.0@) != Some(user_id) ==> plate_in(
            plates_of(file.push(line)),
            user_id,
        ) == plate_in(plates_of(file), user_id),
        plate_in(plates_of(Seq::empty()), user_id) is None,
{
    assert(file.push(line).drop_last() =~= file);
}

/// A name is shown as it is, with its pronouns behind it where any are known.
pub proof fn law_names_are_shown_with_their_pronouns(
    plate: Option<PlateView>,
    display_name: Seq<char>,
)
    ensures
        display_name.is_prefix_of(display_text(plate, display_name)),
        display_text(plate, display_name) == display_name <==> !(plate matches Some(p)
            && p.pronouns.len() > 0),
        plate matches Some(p) ==> (p.pronouns.len() == 1 ==> display_text(plate, display_name)
            == display_name + " ("@ + p.pronouns[0] + ")"@),
{
    reveal_strlit(" (");
    reveal_strlit(")");
    assert(" ("@.len() == 2);
    assert(")"@.len() == 1);
    if let Some(p) = plate {
        if p.pronouns.len() == 1 {
            reveal_with_fuel(text::joined, 2);
            assert(text::joined(p.pronouns, " or "@) =~= p.pronouns[0]);
        }
    }
    assert(display_name =~= display_text(plate, display_name).subrange(
        0,
        display_name.len() as int,
    ));
}

/// Nothing is fetched while what was fetched is fresh, and what is told then is what was
/// fetched.
pub proof fn law_fresh_nameplates_are_not_fetched(
    store: &NameplateProvider,
    user_id: u64,
    now: Instant,
    r: Lookup,
)
    requires
        call_ensures(NameplateProvider::lookup, (store, user_id, now), r),
    ensures
        r is Fetch <==> !store.fresh(now),
        r matches Lookup::Known(p) ==> plate_opt(p) == plate_in(store.cache->0.entries@, user_id),
{
}

} // verus!
