//! The decisions of the persistent memoization layer: which caller of a key
//! runs the producer, when a stored entry answers, and where entries and their
//! temporary files live. Reading, writing and renaming files is the caller's.
use vstd::prelude::*;
use vstd::string::StringExecFns;
use crate::text::hex_fixed;
use crate::text::push_hex;
use crate::text::same_text;
use crate::text::string_of;
use crate::text::chars_of;

verus! {

/// The suffix of every cache entry file.
pub open spec fn entry_suffix() -> Seq<char> {
    seq!['.', 'm', 'p', 'k']
}

/// The file that holds the entry of `key`.
pub open spec fn entry_path_spec(key: Seq<char>) -> Seq<char> {
    key + entry_suffix()
}

/// The temporary file that a writer with `nonce` fills before renaming it to
/// the entry of `key`: beside the entry, in the same directory.
pub open spec fn temp_path_spec(key: Seq<char>, nonce: u64) -> Seq<char> {
    entry_path_spec(key) + seq!['.'] + hex_fixed(nonce as nat, 16) + seq!['.', 't', 'm', 'p']
}

/// The entry file of `key`.
pub fn entry_path(key: &str) -> (r: String)
    ensures
        r@ == entry_path_spec(key@),
{
    let mut v = chars_of(key);
    v.push('.');
    v.push('m');
    v.push('p');
    v.push('k');
    assert(v@ =~= entry_path_spec(key@));
    string_of(&v)
}

/// The temporary file for `key` of the writer with `nonce`.
pub fn temp_path(key: &str, nonce: u64) -> (r: String)
    ensures
        r@ == temp_path_spec(key@, nonce),
{
    let mut v = chars_of(key);
    v.push('.');
    v.push('m');
    v.push('p');
    v.push('k');
    v.push('.');
    push_hex(nonce, 16, &mut v);
    v.push('.');
    v.push('t');
    v.push('m');
    v.push('p');
    assert(v@ =~= temp_path_spec(key@, nonce));
    string_of(&v)
}

/// Crash safety: a temporary file is never the entry of any key, so one left
/// behind by a writer that died before its rename is never read as an entry,
/// and the key stays a miss until a rename completes.
pub proof fn lemma_temp_never_entry(k1: Seq<char>, nonce: u64, k2: Seq<char>)
    ensures
        temp_path_spec(k1, nonce) != entry_path_spec(k2),
        temp_path_spec(k1, nonce).subrange(0, entry_path_spec(k1).len() as int) == entry_path_spec(k1),
{
    let t = temp_path_spec(k1, nonce);
    let e = entry_path_spec(k2);
    assert(t.last() == 'p');
    assert(t[t.len() - 2] == 'm');
    assert(t[t.len() - 3] == 't');
    assert(e.last() == 'k');
    assert(t.subrange(0, entry_path_spec(k1).len() as int) =~= entry_path_spec(k1));
}

/// What the entry lookup of `key` finds on `disk`.
pub open spec fn lookup(disk: Map<Seq<char>, Seq<u8>>, key: Seq<char>) -> Option<Seq<u8>> {
    if disk.contains_key(entry_path_spec(key)) {
        Some(disk[entry_path_spec(key)])
    } else {
        None
    }
}

/// What a `load` of one key does, given the disk and what the producer would
/// return: the value handed back, the disk afterwards, and whether the
/// producer ran. It follows `plan` on what the lookup found.
pub open spec fn load_spec(
    disk: Map<Seq<char>, Seq<u8>>,
    key: Seq<char>,
    produced: Seq<u8>,
) -> (Seq<u8>, Map<Seq<char>, Seq<u8>>, bool) {
    match plan_spec(lookup(disk, key)) {
        PlanView::UseStored(b) => (b, disk, false),
        PlanView::Produce => (produced, disk.insert(entry_path_spec(key), produced), true),
    }
}

/// Idempotence: after one `load` of a key, the lookup of a second one finds
/// the first value, so `plan` returns it and the producer, whatever it is,
/// does not run.
pub proof fn lemma_load_idempotent(
    disk: Map<Seq<char>, Seq<u8>>,
    key: Seq<char>,
    p1: Seq<u8>,
    p2: Seq<u8>,
)
    ensures
        ({
            let (r1, d1, _) = load_spec(disk, key, p1);
            let (r2, d2, ran2) = load_spec(d1, key, p2);
            &&& plan_spec(lookup(d1, key)) == PlanView::UseStored(r1)
            &&& !ran2
            &&& r2 == r1
            &&& d2 == d1
        }),
{
}

/// What to do once the entry file of a key has been looked for.
pub enum LoadPlan {
    /// Decode and return the stored bytes; a decoding failure is an error.
    UseStored(Vec<u8>),
    /// Run the producer, write its value to a temporary file, rename it into place.
    Produce,
}

/// A load plan over plain byte sequences.
pub enum PlanView {
    UseStored(Seq<u8>),
    Produce,
}

impl LoadPlan {
    pub open spec fn view(&self) -> PlanView {
        match self {
            LoadPlan::UseStored(b) => PlanView::UseStored(b@),
            LoadPlan::Produce => PlanView::Produce,
        }
    }
}

/// The plan for what the lookup found: a stored entry always wins.
pub open spec fn plan_spec(stored: Option<Seq<u8>>) -> PlanView {
    match stored {
        Some(b) => PlanView::UseStored(b),
        None => PlanView::Produce,
    }
}

pub open spec fn bytes_view(stored: Option<Vec<u8>>) -> Option<Seq<u8>> {
    match stored {
        Some(b) => Some(b@),
        None => None,
    }
}

/// Decides from what the entry lookup found. The stored entry always wins:
/// an existing entry is never recomputed.
pub fn plan(stored: Option<Vec<u8>>) -> (r: LoadPlan)
    ensures
        r.view() == plan_spec(bytes_view(stored)),
{
    match stored {
        Some(b) => LoadPlan::UseStored(b),
        None => LoadPlan::Produce,
    }
}

/// What a claim on `key` does to the in-flight keys: whether the caller leads
/// (runs the producer), and the keys afterwards.
pub open spec fn claim_spec(keys: Seq<Seq<char>>, key: Seq<char>) -> (bool, Seq<Seq<char>>) {
    if keys.contains(key) {
        (false, keys)
    } else {
        (true, keys.push(key))
    }
}

/// The keys whose producer is running in this process.
pub struct InFlight {
    keys: Vec<String>,
}

impl InFlight {
    pub closed spec fn keys(&self) -> Seq<Seq<char>> {
        self.keys@.map_values(|k: String| k@)
    }

    pub open spec fn wf(&self) -> bool {
        self.keys().no_duplicates()
    }

    pub fn new() -> (r: InFlight)
        ensures
            r.wf(),
            r.keys().len() == 0,
    {
        let r = InFlight { keys: Vec::new() };
        assert(r.keys() =~= Seq::<Seq<char>>::empty());
        r
    }

    fn find(&self, key: &str) -> (r: Option<usize>)
        ensures
            r matches Some(i) ==> i < self.keys().len() && self.keys()[i as int] == key@,
            r is None ==> !self.keys().contains(key@),
    {
        let n = self.keys.len();
        let mut i: usize = 0;
        while i < n
            invariant
                i <= n,
                n == self.keys().len(),
                forall|j: int| 0 <= j < i ==> self.keys()[j] != key@,
            decreases n - i,
        {
            if same_text(self.keys[i].as_str(), key) {
                return Some(i);
            }
            i = i + 1;
        }
        None
    }

    /// Whether a producer for `key` is running.
    pub fn contains(&self, key: &str) -> (r: bool)
        ensures
            r == self.keys().contains(key@),
    {
        self.find(key).is_some()
    }

    /// Claims `key`. Returns true when the caller is to run the producer;
    /// false when another caller already runs it, and this one waits for its
    /// result and then looks again.
    pub fn claim(&mut self, key: &str) -> (r: bool)
        requires
            old(self).wf(),
        ensures
            final(self).wf(),
            (r, final(self).keys()) == claim_spec(old(self).keys(), key@),
    {
        if self.find(key).is_some() {
            false
        } else {
            self.keys.push(String::from_str(key));
            assert(self.keys() =~= old(self).keys().push(key@));
            true
        }
    }

    /// Clears the marker of `key`, once its producer has finished, failed or
    /// been cancelled.
    pub fn release(&mut self, key: &str)
        requires
            old(self).wf(),
        ensures
            final(self).wf(),
            !final(self).keys().contains(key@),
            forall|k: Seq<char>| k != key@ ==> (final(self).keys().contains(k) <==> old(self).keys().contains(k)),
    {
        match self.find(key) {
            Some(i) => {
                let ghost ks = self.keys();
                self.keys.remove(i);
                assert(self.keys() =~= ks.remove(i as int));
                assert forall|k: Seq<char>| k != key@ implies (self.keys().contains(k) <==> ks.contains(k)) by {
                    if ks.contains(k) {
                        let j = choose|j: int| 0 <= j < ks.len() && ks[j] == k;
                        if j < i { assert(self.keys()[j] == k); } else { assert(self.keys()[j - 1] == k); }
                    }
                }
                assert(!self.keys().contains(key@)) by {
                    if self.keys().contains(key@) {
                        let j = choose|j: int| 0 <= j < self.keys().len() && self.keys()[j] == key@;
                        if j < i { assert(ks[j] == key@); } else { assert(ks[j + 1] == key@); }
                    }
                }
            },
            None => {},
        }
    }
}

/// Mutual exclusion: once a caller has claimed a key, every further claim of
/// it fails until the marker is released, so at most one producer per key runs.
pub proof fn lemma_single_producer(keys: Seq<Seq<char>>, key: Seq<char>)
    ensures
        ({
            let (lead, after) = claim_spec(keys, key);
            lead ==> !claim_spec(after, key).0
        }),
        claim_spec(keys, key).1.contains(key),
{
    let (lead, after) = claim_spec(keys, key);
    if lead {
        assert(after[after.len() - 1] == key);
    }
}

/// Waiters share the leader's value: once the leader's load has left the disk
/// `d1` and its marker is released (`released` holds no `key`), a waiter's
/// claim succeeds and its load returns the leader's value without running
/// its own producer.
pub proof fn lemma_waiters_share_result(
    released: Seq<Seq<char>>,
    key: Seq<char>,
    disk: Map<Seq<char>, Seq<u8>>,
    p_leader: Seq<u8>,
    p_waiter: Seq<u8>,
)
    requires
        !released.contains(key),
    ensures
        ({
            let (r1, d1, _) = load_spec(disk, key, p_leader);
            let (r2, _, ran) = load_spec(d1, key, p_waiter);
            &&& claim_spec(released, key).0
            &&& r2 == r1
            &&& !ran
        }),
{
    lemma_load_idempotent(disk, key, p_leader, p_waiter);
}

/// `i` is the position of the last `/` in `path`.
pub open spec fn last_slash_at(path: Seq<char>, i: int) -> bool {
    0 <= i < path.len() && path[i] == '/' && forall|j: int| i < j < path.len() ==> path[j] != '/'
}

/// The directory of `path`: what comes before its last `/`, if it has one.
pub open spec fn parent_spec(path: Seq<char>) -> Option<Seq<char>> {
    if exists|i: int| last_slash_at(path, i) {
        Some(path.subrange(0, choose|i: int| last_slash_at(path, i)))
    } else {
        None
    }
}

pub open spec fn text_view(t: Option<String>) -> Option<Seq<char>> {
    match t {
        Some(s) => Some(s@),
        None => None,
    }
}

/// How a produced value reaches the disk: create `dir` if there is one,
/// write the bytes to `temp`, then rename `temp` to `entry`.
pub struct WritePlan {
    pub dir: Option<String>,
    pub temp: String,
    pub entry: String,
}

/// Decides what to write once the producer of `key` has finished. A failed
/// producer leaves no trace, so a later load tries again; a value goes to a
/// temporary file beside the entry, which is then renamed into place.
pub fn after_produce<T, E>(key: &str, outcome: &Result<T, E>, nonce: u64) -> (r: Option<WritePlan>)
    ensures
        outcome is Err ==> r is None,
        outcome is Ok ==> (r matches Some(w) && {
            &&& w.temp@ == temp_path_spec(key@, nonce)
            &&& w.entry@ == entry_path_spec(key@)
            &&& text_view(w.dir) == parent_spec(entry_path_spec(key@))
        }),
{
    match outcome {
        Err(_) => None,
        Ok(_) => {
            let entry = entry_path(key);
            let path = chars_of(entry.as_str());
            let n = path.len();
            let mut last: Option<usize> = None;
            let mut i: usize = 0;
            while i < n
                invariant
                    i <= n,
                    n == path@.len(),
                    last matches Some(l) ==> l < i && path@[l as int] == '/'
                        && forall|j: int| l < j < i ==> path@[j] != '/',
                    last is None ==> forall|j: int| 0 <= j < i ==> path@[j] != '/',
                decreases n - i,
            {
                if path[i] == '/' {
                    last = Some(i);
                }
                i = i + 1;
            }
            let dir = match last {
                None => {
                    assert(!exists|k: int| last_slash_at(path@, k));
                    None
                },
                Some(l) => {
                    assert(last_slash_at(path@, l as int));
                    proof {
                        let c = choose|k: int| last_slash_at(path@, k);
                        if c < l { assert(path@[l as int] != '/'); }
                        if c > l { assert(path@[c] != '/'); }
                        assert(c == l);
                    }
                    let mut d: Vec<char> = Vec::new();
                    let mut k: usize = 0;
                    while k < l
                        invariant
                            k <= l,
                            l < path@.len(),
                            d@ == path@.subrange(0, k as int),
                        decreases l - k,
                    {
                        d.push(path[k]);
                        k = k + 1;
                        assert(d@ =~= path@.subrange(0, k as int));
                    }
                    Some(string_of(&d))
                },
            };
            Some(WritePlan { dir, temp: temp_path(key, nonce), entry })
        },
    }
}

} // verus!
