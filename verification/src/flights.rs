//! In-flight-fetch registry: a map from cache-file key to the framing of the
//! fetch currently writing that key. It is the single authority that keeps
//! two concurrent origin fetches from writing the same cache file.
use vstd::prelude::*;

verus! {

/// How a fetch's body is framed: chunked transfer encoding, or exactly
/// `n` bytes announced up front.
#[derive(Clone, Copy, Debug, PartialEq, Eq, Structural)]
pub enum FlightState {
    Chunks,
    Length(u64),
}

/// The map a sequence of registry entries stands for, later entries winning.
pub open spec fn entries_map(s: Seq<(String, FlightState)>) -> Map<Seq<char>, FlightState>
    decreases s.len(),
{
    if s.len() == 0 {
        Map::empty()
    } else {
        entries_map(s.drop_last()).insert(s.last().0@, s.last().1)
    }
}

/// What registering a flight does to the registry's map: a key already in
/// flight is left alone and the registration is refused.
pub open spec fn spec_takeoff(
    m: Map<Seq<char>, FlightState>,
    key: Seq<char>,
    state: FlightState,
) -> (Map<Seq<char>, FlightState>, bool) {
    if m.contains_key(key) {
        (m, false)
    } else {
        (m.insert(key, state), true)
    }
}

/// What retiring a flight does to the registry's map.
pub open spec fn spec_land(m: Map<Seq<char>, FlightState>, key: Seq<char>) -> Map<
    Seq<char>,
    FlightState,
> {
    m.remove(key)
}

/// Registry of in-flight fetches, keyed by cache-file path.
pub struct Flights {
    entries: Vec<(String, FlightState)>,
}

impl Flights {
    /// The registered flights as a map from key to framing.
    pub closed spec fn view(self) -> Map<Seq<char>, FlightState> {
        entries_map(self.entries@)
    }

    /// No key is registered twice.
    pub closed spec fn wf(self) -> bool {
        forall|i: int, j: int|
            0 <= i < j < self.entries@.len() ==> (#[trigger] self.entries@[i]).0@ != (
            #[trigger] self.entries@[j]).0@
    }

    /// An empty registry.
    pub fn new() -> (r: Flights)
        ensures
            r.wf(),
            r@ == Map::<Seq<char>, FlightState>::empty(),
    {
        Flights { entries: Vec::new() }
    }

    /// Whether a fetch for `key` is in flight.
    pub fn contains(&self, key: &str) -> (r: bool)
        ensures
            r == self@.contains_key(key@),
    {
        let n = self.entries.len();
        let mut i: usize = 0;
        while i < n
            invariant
                n == self.entries@.len(),
                i <= n,
                forall|j: int| 0 <= j < i ==> (#[trigger] self.entries@[j]).0@ != key@,
            decreases n - i,
        {
            if crate::uri::str_eq_chars(self.entries[i].0.as_str(), key) {
                proof {
                    lemma_entries_map_contains(self.entries@, key@);
                }
                return true;
            }
            i = i + 1;
        }
        proof {
            lemma_entries_map_contains(self.entries@, key@);
        }
        false
    }

    /// The framing registered for `key`, if a fetch for it is in flight.
    pub fn get(&self, key: &str) -> (r: Option<FlightState>)
        requires
            self.wf(),
        ensures
            match r {
                Some(st) => self@.contains_key(key@) && self@[key@] == st,
                None => !self@.contains_key(key@),
            },
    {
        let n = self.entries.len();
        let mut i: usize = 0;
        while i < n
            invariant
                self.wf(),
                n == self.entries@.len(),
                i <= n,
                forall|j: int| 0 <= j < i ==> (#[trigger] self.entries@[j]).0@ != key@,
            decreases n - i,
        {
            if crate::uri::str_eq_chars(self.entries[i].0.as_str(), key) {
                proof {
                    lemma_entries_map_index(self.entries@, i as int);
                }
                return Some(self.entries[i].1);
            }
            i = i + 1;
        }
        proof {
            lemma_entries_map_contains(self.entries@, key@);
        }
        None
    }

    /// Register that a fetch writing cache key `key` uses framing `state`.
    /// Refused when a flight for `key` is already registered: the caller
    /// must not start a second origin fetch, but coalesce with the first.
    pub fn takeoff(&mut self, key: &str, state: FlightState) -> (acquired: bool)
        requires
            old(self).wf(),
        ensures
            final(self).wf(),
            (final(self)@, acquired) == spec_takeoff(old(self)@, key@, state),
    {
        if self.contains(key) {
            return false;
        }
        proof {
            lemma_entries_map_contains(self.entries@, key@);
        }
        let owned: String = key.to_owned();
        self.entries.push((owned, state));
        proof {
            assert(self.entries@.drop_last() =~= old(self).entries@);
        }
        true
    }

    /// Retire the flight for `key`, making the key available for a future
    /// fetch. A flight must be retired when its fetch finishes, whether it
    /// succeeded, failed or was abandoned.
    pub fn land(&mut self, key: &str) -> (removed: bool)
        requires
            old(self).wf(),
        ensures
            final(self).wf(),
            final(self)@ == spec_land(old(self)@, key@),
            removed == old(self)@.contains_key(key@),
    {
        let was_there = self.contains(key);
        let n = self.entries.len();
        let mut kept: Vec<(String, FlightState)> = Vec::new();
        let mut i: usize = 0;
        while i < n
            invariant
                self.wf(),
                n == self.entries@.len(),
                i <= n,
                entries_map(kept@) == entries_map(self.entries@.take(i as int)).remove(key@),
                forall|j: int|
                    0 <= j < kept@.len() ==> exists|j2: int|
                        0 <= j2 < i && (#[trigger] kept@[j]) == self.entries@[j2],
                forall|j1: int, j2: int|
                    0 <= j1 < j2 < kept@.len() ==> (#[trigger] kept@[j1]).0@ != (
                    #[trigger] kept@[j2]).0@,
            decreases n - i,
        {
            let e_key_matches = crate::uri::str_eq_chars(self.entries[i].0.as_str(), key);
            proof {
                assert(self.entries@.take(i + 1).drop_last() =~= self.entries@.take(i as int));
                assert(self.entries@.take(i + 1).last() == self.entries@[i as int]);
            }
            if !e_key_matches {
                let entry = (self.entries[i].0.clone(), self.entries[i].1);
                proof {
                    let m0 = entries_map(self.entries@.take(i as int));
                    assert(entries_map(kept@.push(entry)) == entries_map(kept@).insert(
                        entry.0@,
                        entry.1,
                    )) by {
                        assert(kept@.push(entry).drop_last() =~= kept@);
                    }
                    assert(m0.insert(self.entries@[i as int].0@, self.entries@[i as int].1).remove(
                        key@,
                    ) =~= m0.remove(key@).insert(
                        self.entries@[i as int].0@,
                        self.entries@[i as int].1,
                    ));
                }
                kept.push(entry);
            } else {
                proof {
                    let m0 = entries_map(self.entries@.take(i as int));
                    assert(m0.insert(self.entries@[i as int].0@, self.entries@[i as int].1).remove(
                        key@,
                    ) =~= m0.remove(key@));
                }
            }
            i = i + 1;
        }
        proof {
            assert(self.entries@.take(n as int) =~= self.entries@);
        }
        self.entries = kept;
        was_there
    }
}

/// The map of a sequence of entries holds a key exactly when some entry
/// carries it.
proof fn lemma_entries_map_contains(s: Seq<(String, FlightState)>, k: Seq<char>)
    ensures
        entries_map(s).contains_key(k) <==> exists|i: int| 0 <= i < s.len() && (#[trigger] s[i]).0@
            == k,
    decreases s.len(),
{
    if s.len() > 0 {
        lemma_entries_map_contains(s.drop_last(), k);
        if s.last().0@ == k {
            assert(s[s.len() - 1].0@ == k);
        } else {
            if exists|i: int| 0 <= i < s.len() - 1 && (#[trigger] s.drop_last()[i]).0@ == k {
                let i = choose|i: int| 0 <= i < s.len() - 1 && (#[trigger] s.drop_last()[i]).0@
                    == k;
                assert(s[i].0@ == k);
            }
            if exists|i: int| 0 <= i < s.len() && (#[trigger] s[i]).0@ == k {
                let i = choose|i: int| 0 <= i < s.len() && (#[trigger] s[i]).0@ == k;
                assert(s.drop_last()[i].0@ == k);
            }
        }
    }
}

/// With no key registered twice, the map's value for an entry's key is that
/// entry's framing.
proof fn lemma_entries_map_index(s: Seq<(String, FlightState)>, i: int)
    requires
        0 <= i < s.len(),
        forall|i1: int, i2: int|
            0 <= i1 < i2 < s.len() ==> (#[trigger] s[i1]).0@ != (#[trigger] s[i2]).0@,
    ensures
        entries_map(s).contains_key(s[i].0@),
        entries_map(s)[s[i].0@] == s[i].1,
    decreases s.len(),
{
    if i == s.len() - 1 {
    } else {
        lemma_entries_map_index(s.drop_last(), i);
        assert(s.drop_last()[i] == s[i]);
        assert(s.last().0@ != s[i].0@);
    }
}

/// Flight coalescing: of two registrations for the same key with no
/// retirement in between, at most one acquires the flight, so two
/// concurrent fetches never write the same cache file.
pub proof fn lemma_flight_coalescing(
    m0: Map<Seq<char>, FlightState>,
    key: Seq<char>,
    s1: FlightState,
    s2: FlightState,
)
    ensures
        !(spec_takeoff(m0, key, s1).1 && spec_takeoff(spec_takeoff(m0, key, s1).0, key, s2).1),
{
}

/// Retirement frees the key: after a flight for a key lands, a fresh
/// registration for that key acquires the flight again.
pub proof fn lemma_flight_reusable_after_land(
    m0: Map<Seq<char>, FlightState>,
    key: Seq<char>,
    state: FlightState,
)
    ensures
        spec_takeoff(spec_land(m0, key), key, state).1,
{
}

} // verus!
