//! Accounting for every live visual request, including tolerated omissions.
//!
//! Each frame the field expects a set of presentation requests (one per visible
//! actor part, animation, attachment, effect and so on). Renderers acknowledge
//! what they drew and report what is still loading; whatever remains is an
//! unapplied request, except while it has been loading for less than the timeout.
use vstd::prelude::*;

verus! {

/// How long a request may keep loading before it counts as unapplied, in
/// milliseconds.
pub const LOAD_TIMEOUT_MS: u64 = 30_000;

/// A presentation request of the field VM.
#[derive(Clone, Copy, Debug, PartialEq, Eq, Structural)]
pub enum Request {
    Actor(i32, usize),
    Animation { actor: i32, part: usize, resource: u32, slot: u16 },
    Attachment(i32, usize),
    Bone(i32, usize, u8),
    Mouth(i32),
    Eyes(i32),
    SecondaryMotion(i32, usize),
    Shadow(i32),
    Emote(i32),
    Paralysis,
    Billboard(i32),
    Refraction(i32),
    Particle(i32),
    SavePoint(usize, u8),
    Dialogue(u8),
    Choice(u8),
    Overlay(i32),
    Camera,
    Fade,
    Menu,
    Skit,
}

/// The sort key of a request: its variant, then its fields in declaration order.
pub open spec fn key(r: Request) -> (int, int, int, int, int) {
    match r {
        Request::Actor(a, p) => (0, a as int, p as int, 0, 0),
        Request::Animation { actor, part, resource, slot } => (1, actor as int, part as int, resource as int, slot as int),
        Request::Attachment(a, p) => (2, a as int, p as int, 0, 0),
        Request::Bone(a, p, s) => (3, a as int, p as int, s as int, 0),
        Request::Mouth(a) => (4, a as int, 0, 0, 0),
        Request::Eyes(a) => (5, a as int, 0, 0, 0),
        Request::SecondaryMotion(a, p) => (6, a as int, p as int, 0, 0),
        Request::Shadow(a) => (7, a as int, 0, 0, 0),
        Request::Emote(a) => (8, a as int, 0, 0, 0),
        Request::Paralysis => (9, 0, 0, 0, 0),
        Request::Billboard(a) => (10, a as int, 0, 0, 0),
        Request::Refraction(a) => (11, a as int, 0, 0, 0),
        Request::Particle(a) => (12, a as int, 0, 0, 0),
        Request::SavePoint(i, pass) => (13, i as int, pass as int, 0, 0),
        Request::Dialogue(s) => (14, s as int, 0, 0, 0),
        Request::Choice(s) => (15, s as int, 0, 0, 0),
        Request::Overlay(a) => (16, a as int, 0, 0, 0),
        Request::Camera => (17, 0, 0, 0, 0),
        Request::Fade => (18, 0, 0, 0, 0),
        Request::Menu => (19, 0, 0, 0, 0),
        Request::Skit => (20, 0, 0, 0, 0),
    }
}

/// Lexicographic order on keys.
pub open spec fn key_lt(a: (int, int, int, int, int), b: (int, int, int, int, int)) -> bool {
    ||| a.0 < b.0
    ||| a.0 == b.0 && a.1 < b.1
    ||| a.0 == b.0 && a.1 == b.1 && a.2 < b.2
    ||| a.0 == b.0 && a.1 == b.1 && a.2 == b.2 && a.3 < b.3
    ||| a.0 == b.0 && a.1 == b.1 && a.2 == b.2 && a.3 == b.3 && a.4 < b.4
}

/// The order of requests: by variant, then by fields.
pub open spec fn precedes(a: Request, b: Request) -> bool {
    key_lt(key(a), key(b))
}

/// Strictly increasing, hence free of duplicates.
pub open spec fn sorted(s: Seq<Request>) -> bool {
    forall|i: int, j: int| 0 <= i < j < s.len() ==> precedes(#[trigger] s[i], #[trigger] s[j])
}

/// Requests with the same key are the same request.
pub proof fn lemma_key_injective(a: Request, b: Request)
    requires
        key(a) == key(b),
    ensures
        a == b,
{
}

/// Two requests are equal or ordered one way or the other.
pub proof fn lemma_trichotomy(a: Request, b: Request)
    ensures
        a == b || precedes(a, b) || precedes(b, a),
        !(precedes(a, b) && precedes(b, a)),
        !precedes(a, a),
{
    if key(a) == key(b) {
        lemma_key_injective(a, b);
    }
}

fn key_of(r: &Request) -> (k: (u8, i128, i128, i128, i128))
    ensures
        (k.0 as int, k.1 as int, k.2 as int, k.3 as int, k.4 as int) == key(*r),
{
    match *r {
        Request::Actor(a, p) => (0, a as i128, p as i128, 0, 0),
        Request::Animation { actor, part, resource, slot } => (1, actor as i128, part as i128, resource as i128, slot as i128),
        Request::Attachment(a, p) => (2, a as i128, p as i128, 0, 0),
        Request::Bone(a, p, s) => (3, a as i128, p as i128, s as i128, 0),
        Request::Mouth(a) => (4, a as i128, 0, 0, 0),
        Request::Eyes(a) => (5, a as i128, 0, 0, 0),
        Request::SecondaryMotion(a, p) => (6, a as i128, p as i128, 0, 0),
        Request::Shadow(a) => (7, a as i128, 0, 0, 0),
        Request::Emote(a) => (8, a as i128, 0, 0, 0),
        Request::Paralysis => (9, 0, 0, 0, 0),
        Request::Billboard(a) => (10, a as i128, 0, 0, 0),
        Request::Refraction(a) => (11, a as i128, 0, 0, 0),
        Request::Particle(a) => (12, a as i128, 0, 0, 0),
        Request::SavePoint(i, pass) => (13, i as i128, pass as i128, 0, 0),
        Request::Dialogue(s) => (14, s as i128, 0, 0, 0),
        Request::Choice(s) => (15, s as i128, 0, 0, 0),
        Request::Overlay(a) => (16, a as i128, 0, 0, 0),
        Request::Camera => (17, 0, 0, 0, 0),
        Request::Fade => (18, 0, 0, 0, 0),
        Request::Menu => (19, 0, 0, 0, 0),
        Request::Skit => (20, 0, 0, 0, 0),
    }
}

/// Whether `a` sorts before `b`.
pub fn request_precedes(a: &Request, b: &Request) -> (r: bool)
    ensures
        r == precedes(*a, *b),
{
    let x = key_of(a);
    let y = key_of(b);
    x.0 < y.0 || (x.0 == y.0 && (x.1 < y.1 || (x.1 == y.1 && (x.2 < y.2 || (x.2 == y.2 && (x.3 < y.3
        || (x.3 == y.3 && x.4 < y.4)))))))
}

/// Whether two requests are the same.
pub fn same_request(a: &Request, b: &Request) -> (r: bool)
    ensures
        r == (*a == *b),
{
    let x = key_of(a);
    let y = key_of(b);
    let r = x.0 == y.0 && x.1 == y.1 && x.2 == y.2 && x.3 == y.3 && x.4 == y.4;
    proof {
        if r {
            lemma_key_injective(*a, *b);
        }
    }
    r
}

/// A set of requests, kept in request order.
pub struct RequestSet {
    items: Vec<Request>,
}

impl View for RequestSet {
    type V = Seq<Request>;

    closed spec fn view(&self) -> Seq<Request> {
        self.items@
    }
}

impl RequestSet {
    #[verifier::type_invariant]
    closed spec fn ordered(self) -> bool {
        sorted(self.items@)
    }

    /// The empty set.
    pub fn new() -> (s: Self)
        ensures
            s@ == Seq::<Request>::empty(),
    {
        RequestSet { items: Vec::new() }
    }

    /// The number of requests.
    pub fn len(&self) -> (n: usize)
        ensures
            n == self@.len(),
    {
        self.items.len()
    }

    /// The request at `index` in request order.
    pub fn get(&self, index: usize) -> (r: Request)
        requires
            index < self@.len(),
        ensures
            r == self@[index as int],
    {
        self.items[index]
    }

    /// The first position whose request does not precede `r`.
    fn position(&self, r: &Request) -> (p: usize)
        ensures
            p <= self@.len(),
            forall|i: int| 0 <= i < p ==> precedes(#[trigger] self@[i], *r),
            p < self@.len() ==> !precedes(self@[p as int], *r),
    {
        proof {
            use_type_invariant(self);
        }
        let mut p: usize = 0;
        while p < self.items.len()
            invariant
                p <= self.items@.len(),
                sorted(self.items@),
                forall|i: int| 0 <= i < p ==> precedes(#[trigger] self.items@[i], *r),
            decreases self.items@.len() - p,
        {
            if !request_precedes(&self.items[p], r) {
                return p;
            }
            p = p + 1;
        }
        p
    }

    /// Whether `r` is in the set.
    pub fn contains(&self, r: &Request) -> (b: bool)
        ensures
            b == self@.contains(*r),
    {
        proof {
            use_type_invariant(self);
        }
        let p = self.position(r);
        if p < self.items.len() && same_request(&self.items[p], r) {
            return true;
        }
        proof {
            if self@.contains(*r) {
                let k = choose|k: int| 0 <= k < self@.len() && self@[k] == *r;
                lemma_trichotomy(self@[k], *r);
                if k < p {
                } else if k > p {
                    lemma_trichotomy(self@[p as int], *r);
                    assert(precedes(self@[p as int], self@[k]));
                }
            }
        }
        false
    }

    /// Adds `r`, keeping request order.
    pub fn insert(&mut self, r: Request)
        ensures
            final(self)@.to_set() == old(self)@.to_set().insert(r),
    {
        proof {
            use_type_invariant(&*self);
        }
        let p = self.position(&r);
        if p < self.items.len() && same_request(&self.items[p], &r) {
            proof {
                assert(old(self)@.to_set().insert(r) =~= old(self)@.to_set());
            }
            return;
        }
        let ghost before = self.items@;
        proof {
            if p < before.len() {
                lemma_trichotomy(before[p as int], r);
            }
            assert forall|i: int, j: int| 0 <= i < j < before.len() + 1 implies precedes(
                #[trigger] before.insert(p as int, r)[i],
                #[trigger] before.insert(p as int, r)[j],
            ) by {
                let s = before.insert(p as int, r);
                if j < p {
                } else if j == p {
                    assert(s[i] == before[i]);
                } else if i < p {
                    assert(s[j] == before[j - 1]);
                    if j - 1 > p {
                        assert(precedes(before[p as int], before[j - 1]));
                    }
                } else if i == p {
                    assert(s[j] == before[j - 1]);
                    if j - 1 > p {
                        assert(precedes(before[p as int], before[j - 1]));
                    }
                } else {
                    assert(s[i] == before[i - 1]);
                    assert(s[j] == before[j - 1]);
                }
            }
        }
        let mut items: Vec<Request> = Vec::new();
        std::mem::swap(&mut items, &mut self.items);
        items.insert(p, r);
        self.items = items;
        proof {
            assert(self.items@.to_set() =~= before.to_set().insert(r)) by {
                assert forall|x: Request| self.items@.to_set().contains(x) implies before.to_set().insert(r).contains(x) by {
                    let k = choose|k: int| 0 <= k < self.items@.len() && self.items@[k] == x;
                    if k < p {
                        assert(before[k] == x);
                    } else if k > p {
                        assert(before[k - 1] == x);
                    }
                }
                assert forall|x: Request| before.to_set().insert(r).contains(x) implies self.items@.to_set().contains(x) by {
                    if x == r {
                        assert(self.items@[p as int] == r);
                    } else {
                        let k = choose|k: int| 0 <= k < before.len() && before[k] == x;
                        if k < p {
                            assert(self.items@[k] == x);
                        } else {
                            assert(self.items@[k + 1] == x);
                        }
                    }
                }
            }
        }
    }

    /// Removes every request.
    pub fn clear(&mut self)
        ensures
            final(self)@ == Seq::<Request>::empty(),
    {
        self.items = Vec::new();
    }

    /// Removes `r`.
    pub fn remove(&mut self, r: &Request)
        ensures
            final(self)@.to_set() == old(self)@.to_set().remove(*r),
    {
        proof {
            use_type_invariant(&*self);
        }
        let p = self.position(r);
        if p < self.items.len() && same_request(&self.items[p], r) {
            let ghost before = self.items@;
            proof {
                assert forall|i: int, j: int| 0 <= i < j < before.len() - 1 implies precedes(
                    #[trigger] before.remove(p as int)[i],
                    #[trigger] before.remove(p as int)[j],
                ) by {
                    let s = before.remove(p as int);
                    if j < p {
                    } else if i < p {
                        assert(s[j] == before[j + 1]);
                    } else {
                        assert(s[i] == before[i + 1]);
                        assert(s[j] == before[j + 1]);
                    }
                }
            }
            let mut items: Vec<Request> = Vec::new();
            std::mem::swap(&mut items, &mut self.items);
            items.remove(p);
            self.items = items;
            proof {
                assert(self.items@.to_set() =~= before.to_set().remove(*r)) by {
                    assert forall|x: Request| self.items@.to_set().contains(x) implies before.to_set().remove(*r).contains(x) by {
                        let k = choose|k: int| 0 <= k < self.items@.len() && self.items@[k] == x;
                        if k < p {
                            assert(before[k] == x);
                            assert(precedes(before[k], before[p as int]));
                            lemma_trichotomy(x, *r);
                        } else {
                            assert(before[k + 1] == x);
                            assert(precedes(before[p as int], before[k + 1]));
                            lemma_trichotomy(x, *r);
                        }
                    }
                    assert forall|x: Request| before.to_set().remove(*r).contains(x) implies self.items@.to_set().contains(x) by {
                        let k = choose|k: int| 0 <= k < before.len() && before[k] == x;
                        if k < p {
                            assert(self.items@[k] == x);
                        } else {
                            assert(k != p);
                            assert(self.items@[k - 1] == x);
                        }
                    }
                }
            }
        } else {
            proof {
                assert(!old(self)@.contains(*r)) by {
                    if old(self)@.contains(*r) {
                        let k = choose|k: int| 0 <= k < old(self)@.len() && old(self)@[k] == *r;
                        lemma_trichotomy(old(self)@[k], *r);
                        if k > p {
                            lemma_trichotomy(old(self)@[p as int], *r);
                            assert(precedes(old(self)@[p as int], old(self)@[k]));
                        }
                    }
                }
                assert(old(self)@.to_set().remove(*r) =~= old(self)@.to_set());
            }
        }
    }
}


/// No request occurs twice among the entries.
pub open spec fn distinct_requests(s: Seq<(Request, u64)>) -> bool {
    forall|i: int, j: int| 0 <= i < j < s.len() ==> (#[trigger] s[i]).0 != (#[trigger] s[j]).0
}

/// Whether some entry is for `r`.
pub open spec fn has_entry(s: Seq<(Request, u64)>, r: Request) -> bool {
    exists|i: int| 0 <= i < s.len() && (#[trigger] s[i]).0 == r
}

/// The entries as a map from request to the time its loading began.
pub open spec fn entry_map(s: Seq<(Request, u64)>) -> Map<Request, u64> {
    Map::new(|r: Request| has_entry(s, r), |r: Request| s[choose|i: int| 0 <= i < s.len() && (#[trigger] s[i]).0 == r].1)
}

proof fn lemma_entry_at(s: Seq<(Request, u64)>, i: int)
    requires
        distinct_requests(s),
        0 <= i < s.len(),
    ensures
        entry_map(s).contains_key(s[i].0),
        entry_map(s)[s[i].0] == s[i].1,
{
    let r = s[i].0;
    assert(has_entry(s, r));
    let j = choose|j: int| 0 <= j < s.len() && (#[trigger] s[j]).0 == r;
    if j != i {
        if j < i {
            assert(s[j].0 != s[i].0);
        } else {
            assert(s[i].0 != s[j].0);
        }
    }
}

proof fn lemma_entry_push(s: Seq<(Request, u64)>, e: (Request, u64))
    requires
        distinct_requests(s),
        !has_entry(s, e.0),
    ensures
        distinct_requests(s.push(e)),
        entry_map(s.push(e)) == entry_map(s).insert(e.0, e.1),
{
    let t = s.push(e);
    assert forall|i: int, j: int| 0 <= i < j < t.len() implies (#[trigger] t[i]).0 != (#[trigger] t[j]).0 by {
        if j == s.len() {
            assert(t[i] == s[i]);
        }
    }
    assert forall|r: Request| #[trigger] entry_map(t).contains_key(r) == entry_map(s).insert(e.0, e.1).contains_key(r) by {
        if has_entry(t, r) && r != e.0 {
            let k = choose|k: int| 0 <= k < t.len() && (#[trigger] t[k]).0 == r;
            assert(s[k].0 == r);
        }
        if has_entry(s, r) {
            let k = choose|k: int| 0 <= k < s.len() && (#[trigger] s[k]).0 == r;
            assert(t[k].0 == r);
        }
        if r == e.0 {
            assert(t[s.len() as int].0 == r);
        }
    }
    assert forall|r: Request| #[trigger] entry_map(t).contains_key(r) implies entry_map(t)[r] == entry_map(s).insert(e.0, e.1)[r] by {
        let k = choose|k: int| 0 <= k < t.len() && (#[trigger] t[k]).0 == r;
        lemma_entry_at(t, k);
        if k < s.len() {
            assert(t[k] == s[k]);
            lemma_entry_at(s, k);
        }
    }
    assert(entry_map(t) =~= entry_map(s).insert(e.0, e.1));
}

proof fn lemma_entry_remove(s: Seq<(Request, u64)>, i: int)
    requires
        distinct_requests(s),
        0 <= i < s.len(),
    ensures
        distinct_requests(s.remove(i)),
        entry_map(s.remove(i)) == entry_map(s).remove(s[i].0),
{
    let t = s.remove(i);
    assert forall|a: int, b: int| 0 <= a < b < t.len() implies (#[trigger] t[a]).0 != (#[trigger] t[b]).0 by {
        let a2 = if a < i { a } else { a + 1 };
        let b2 = if b < i { b } else { b + 1 };
        assert(t[a] == s[a2]);
        assert(t[b] == s[b2]);
    }
    let target = entry_map(s).remove(s[i].0);
    assert forall|r: Request| #[trigger] entry_map(t).contains_key(r) == target.contains_key(r) by {
        if has_entry(t, r) {
            let k = choose|k: int| 0 <= k < t.len() && (#[trigger] t[k]).0 == r;
            let k2 = if k < i { k } else { k + 1 };
            assert(s[k2].0 == r);
            if k2 < i {
                assert(s[k2].0 != s[i].0);
            } else {
                assert(s[i].0 != s[k2].0);
            }
        }
        if has_entry(s, r) && r != s[i].0 {
            let k = choose|k: int| 0 <= k < s.len() && (#[trigger] s[k]).0 == r;
            if k < i {
                assert(t[k].0 == r);
            } else {
                assert(k != i);
                assert(t[k - 1].0 == r);
            }
        }
    }
    assert forall|r: Request| #[trigger] entry_map(t).contains_key(r) implies entry_map(t)[r] == target[r] by {
        let k = choose|k: int| 0 <= k < t.len() && (#[trigger] t[k]).0 == r;
        lemma_entry_at(t, k);
        let k2 = if k < i { k } else { k + 1 };
        assert(t[k] == s[k2]);
        lemma_entry_at(s, k2);
    }
    assert(entry_map(t) =~= target);
}

/// The requests that are still loading, each with the time its loading began.
pub struct LoadingMap {
    entries: Vec<(Request, u64)>,
}

impl View for LoadingMap {
    type V = Map<Request, u64>;

    closed spec fn view(&self) -> Map<Request, u64> {
        entry_map(self.entries@)
    }
}

impl LoadingMap {
    #[verifier::type_invariant]
    closed spec fn distinct(self) -> bool {
        distinct_requests(self.entries@)
    }

    /// Nothing is loading.
    pub fn new() -> (m: Self)
        ensures
            m@ == Map::<Request, u64>::empty(),
    {
        let m = LoadingMap { entries: Vec::new() };
        proof {
            assert(m@ =~= Map::<Request, u64>::empty());
        }
        m
    }

    fn find(&self, r: &Request) -> (found: Option<usize>)
        ensures
            match found {
                Some(i) => i < self.entries@.len() && self.entries@[i as int].0 == *r,
                None => !has_entry(self.entries@, *r),
            },
    {
        let mut i: usize = 0;
        while i < self.entries.len()
            invariant
                i <= self.entries@.len(),
                forall|k: int| 0 <= k < i ==> (#[trigger] self.entries@[k]).0 != *r,
            decreases self.entries@.len() - i,
        {
            if same_request(&self.entries[i].0, r) {
                return Some(i);
            }
            i = i + 1;
        }
        None
    }

    /// When `r` began loading, if it is loading.
    pub fn get(&self, r: &Request) -> (since: Option<u64>)
        ensures
            since == if self@.contains_key(*r) { Some(self@[*r]) } else { None::<u64> },
    {
        proof {
            use_type_invariant(self);
        }
        match self.find(r) {
            Some(i) => {
                proof {
                    lemma_entry_at(self.entries@, i as int);
                }
                Some(self.entries[i].1)
            },
            None => None,
        }
    }

    /// Records that `r` is loading since `now`, unless it already was.
    pub fn start(&mut self, r: Request, now: u64)
        ensures
            final(self)@ == if old(self)@.contains_key(r) { old(self)@ } else { old(self)@.insert(r, now) },
    {
        proof {
            use_type_invariant(&*self);
        }
        if self.find(&r).is_none() {
            proof {
                lemma_entry_push(self.entries@, (r, now));
            }
            let mut entries: Vec<(Request, u64)> = Vec::new();
            std::mem::swap(&mut entries, &mut self.entries);
            entries.push((r, now));
            self.entries = entries;
        }
    }

    /// Forgets `r`.
    pub fn remove(&mut self, r: &Request)
        ensures
            final(self)@ == old(self)@.remove(*r),
    {
        proof {
            use_type_invariant(&*self);
        }
        match self.find(r) {
            Some(i) => {
                proof {
                    lemma_entry_remove(self.entries@, i as int);
                }
                let mut entries: Vec<(Request, u64)> = Vec::new();
                std::mem::swap(&mut entries, &mut self.entries);
                entries.remove(i);
                self.entries = entries;
            },
            None => {
                proof {
                    assert(old(self)@.remove(*r) =~= old(self)@);
                }
            },
        }
    }

    /// Keeps only the requests in `keep`.
    pub fn retain(&mut self, keep: &RequestSet)
        ensures
            final(self)@ == old(self)@.restrict(keep@.to_set()),
    {
        proof {
            use_type_invariant(&*self);
        }
        let ghost source = self.entries@;
        let mut kept: Vec<(Request, u64)> = Vec::new();
        let mut i: usize = 0;
        while i < self.entries.len()
            invariant
                source == self.entries@,
                distinct_requests(source),
                i <= source.len(),
                distinct_requests(kept@),
                forall|k: int| 0 <= k < kept@.len() ==> exists|j: int| 0 <= j < i && source[j] == #[trigger] kept@[k],
                entry_map(kept@) == entry_map(source.subrange(0, i as int)).restrict(keep@.to_set()),
            decreases source.len() - i,
        {
            let entry = self.entries[i];
            let ghost prefix = source.subrange(0, i as int);
            proof {
                assert(source.subrange(0, i + 1) =~= prefix.push(entry));
                assert(distinct_requests(prefix));
                assert(!has_entry(prefix, entry.0)) by {
                    if has_entry(prefix, entry.0) {
                        let k = choose|k: int| 0 <= k < prefix.len() && (#[trigger] prefix[k]).0 == entry.0;
                        assert(source[k].0 != source[i as int].0);
                    }
                }
                lemma_entry_push(prefix, entry);
            }
            if keep.contains(&entry.0) {
                proof {
                    assert(!has_entry(kept@, entry.0)) by {
                        if has_entry(kept@, entry.0) {
                            let k = choose|k: int| 0 <= k < kept@.len() && (#[trigger] kept@[k]).0 == entry.0;
                            let j = choose|j: int| 0 <= j < i && source[j] == #[trigger] kept@[k];
                            assert(source[j].0 != source[i as int].0);
                        }
                    }
                    lemma_entry_push(kept@, entry);
                    assert(entry_map(kept@.push(entry)) =~= entry_map(prefix.push(entry)).restrict(keep@.to_set()));
                }
                kept.push(entry);
            } else {
                proof {
                    assert(entry_map(kept@) =~= entry_map(prefix.push(entry)).restrict(keep@.to_set()));
                }
            }
            i = i + 1;
        }
        proof {
            assert(source.subrange(0, source.len() as int) =~= source);
        }
        self.entries = kept;
    }
}


/// What the audit reads of a field actor and its prepared artwork.
#[derive(Clone, Debug)]
pub struct ActorState {
    pub id: i32,
    pub visible: bool,
    pub model_hidden: bool,
    /// Number of model parts of the actor's resource (1 when it has no model).
    pub parts: usize,
    /// Resource and slot of the playing animation.
    pub animation: Option<(u32, u16)>,
    /// Whether the actor is attached to another actor's bone.
    pub attached: bool,
    /// Slots of the scripted bone adjustments, in increasing order.
    pub bone_slots: Vec<u8>,
    /// Eyes are enabled and the model has eyes.
    pub eyes: bool,
    /// Model parts with secondary motion.
    pub secondary_parts: Vec<usize>,
    pub casts_shadow: bool,
    /// A mouth shape is set or the actor is talking, and the model has a mouth.
    pub mouth: bool,
}

/// What the audit reads of the field VM's world.
#[derive(Clone, Debug)]
pub struct WorldState {
    pub actors: Vec<ActorState>,
    pub emotes: Vec<i32>,
    pub paralysis: bool,
    pub billboards: Vec<i32>,
    pub refractions: Vec<i32>,
    pub particles: Vec<i32>,
    pub save_points: usize,
    /// Dialogue slots, each with whether its operation is pending.
    pub dialogue: Vec<(u8, bool)>,
    /// Choice slots, each with whether its operation is pending.
    pub choices: Vec<(u8, bool)>,
    pub overlays: Vec<i32>,
    pub camera: bool,
    pub fade: bool,
}

/// Whether the actor's model is drawn.
pub open spec fn shown(a: ActorState) -> bool {
    a.visible && !a.model_hidden
}

/// The number of parts the audit expects of an actor: at least one.
pub open spec fn part_count(a: ActorState) -> int {
    if a.parts > 1 { a.parts as int } else { 1 }
}

/// The requests of one model part of an actor: the part itself, its animation,
/// its attachment and each scripted bone adjustment.
pub open spec fn part_request(a: ActorState, part: int, r: Request) -> bool {
    ||| r == Request::Actor(a.id, part as usize)
    ||| (a.animation matches Some((resource, slot)) && r == (Request::Animation { actor: a.id, part: part as usize, resource, slot }))
    ||| (a.attached && r == Request::Attachment(a.id, part as usize))
    ||| exists|k: int| 0 <= k < a.bone_slots@.len() && r == Request::Bone(a.id, part as usize, #[trigger] a.bone_slots@[k])
}

/// The request of kind `kind` for the effect or overlay `id`.
pub open spec fn id_request(kind: u8, id: i32) -> Request {
    if kind == 8 {
        Request::Emote(id)
    } else if kind == 10 {
        Request::Billboard(id)
    } else if kind == 11 {
        Request::Refraction(id)
    } else if kind == 12 {
        Request::Particle(id)
    } else {
        Request::Overlay(id)
    }
}

/// Whether `r` is one of the requests for `ids`.
pub open spec fn among_ids(ids: Seq<i32>, kind: u8, r: Request) -> bool {
    exists|k: int| 0 <= k < ids.len() && r == id_request(kind, #[trigger] ids[k])
}

/// Whether `r` is the request of a pending dialogue (or, for `choice`, choice) slot.
pub open spec fn among_pending(slots: Seq<(u8, bool)>, choice: bool, r: Request) -> bool {
    exists|k: int| 0 <= k < slots.len() && (#[trigger] slots[k]).1 && r == if choice {
        Request::Choice(slots[k].0)
    } else {
        Request::Dialogue(slots[k].0)
    }
}

/// Whether the VM world expects request `r` this frame.
pub open spec fn expects(w: WorldState, r: Request) -> bool {
    ||| exists|i: int, part: int| #![trigger part_request(w.actors@[i], part, r)] 0 <= i < w.actors@.len() && shown(w.actors@[i]) && 0 <= part < part_count(w.actors@[i])
        && part_request(w.actors@[i], part, r)
    ||| among_ids(w.emotes@, 8, r)
    ||| (w.paralysis && r == Request::Paralysis)
    ||| among_ids(w.billboards@, 10, r)
    ||| among_ids(w.refractions@, 11, r)
    ||| among_ids(w.particles@, 12, r)
    ||| (r matches Request::SavePoint(index, pass) && index < w.save_points && pass < 2)
    ||| among_pending(w.dialogue@, false, r)
    ||| among_pending(w.choices@, true, r)
    ||| among_ids(w.overlays@, 16, r)
    ||| (w.camera && r == Request::Camera)
    ||| (w.fade && r == Request::Fade)
}

fn id_request_of(kind: u8, id: i32) -> (r: Request)
    ensures
        r == id_request(kind, id),
{
    if kind == 8 {
        Request::Emote(id)
    } else if kind == 10 {
        Request::Billboard(id)
    } else if kind == 11 {
        Request::Refraction(id)
    } else if kind == 12 {
        Request::Particle(id)
    } else {
        Request::Overlay(id)
    }
}

fn add_ids(set: &mut RequestSet, ids: &Vec<i32>, kind: u8)
    ensures
        forall|r: Request| #[trigger] final(set)@.contains(r) == (old(set)@.contains(r) || among_ids(ids@, kind, r)),
{
    let mut i: usize = 0;
    while i < ids.len()
        invariant
            i <= ids@.len(),
            forall|r: Request| #[trigger] set@.contains(r) == (old(set)@.contains(r) || among_ids(ids@.subrange(0, i as int), kind, r)),
        decreases ids@.len() - i,
    {
        let ghost before = set@;
        let r = id_request_of(kind, ids[i]);
        set.insert(r);
        proof {
            assert forall|x: Request| #[trigger] set@.contains(x) == (old(set)@.contains(x) || among_ids(ids@.subrange(0, i + 1), kind, x)) by {
                assert(set@.to_set().contains(x) == set@.contains(x));
                assert(before.to_set().contains(x) == before.contains(x));
                if among_ids(ids@.subrange(0, i + 1), kind, x) {
                    let k = choose|k: int| 0 <= k < i + 1 && x == id_request(kind, #[trigger] ids@.subrange(0, i + 1)[k]);
                    if k < i {
                        assert(ids@.subrange(0, i as int)[k] == ids@.subrange(0, i + 1)[k]);
                    }
                }
                if among_ids(ids@.subrange(0, i as int), kind, x) {
                    let k = choose|k: int| 0 <= k < i && x == id_request(kind, #[trigger] ids@.subrange(0, i as int)[k]);
                    assert(ids@.subrange(0, i + 1)[k] == ids@.subrange(0, i as int)[k]);
                }
                if x == r {
                    assert(ids@.subrange(0, i + 1)[i as int] == ids@[i as int]);
                }
            }
        }
        i = i + 1;
    }
    proof {
        assert(ids@.subrange(0, ids@.len() as int) =~= ids@);
    }
}

fn add_pending(set: &mut RequestSet, slots: &Vec<(u8, bool)>, choice: bool)
    ensures
        forall|r: Request| #[trigger] final(set)@.contains(r) == (old(set)@.contains(r) || among_pending(slots@, choice, r)),
{
    let mut i: usize = 0;
    while i < slots.len()
        invariant
            i <= slots@.len(),
            forall|r: Request| #[trigger] set@.contains(r) == (old(set)@.contains(r) || among_pending(slots@.subrange(0, i as int), choice, r)),
        decreases slots@.len() - i,
    {
        let ghost before = set@;
        let (slot, pending) = slots[i];
        if pending {
            let r = if choice { Request::Choice(slot) } else { Request::Dialogue(slot) };
            set.insert(r);
        }
        proof {
            assert forall|x: Request| #[trigger] set@.contains(x) == (old(set)@.contains(x) || among_pending(slots@.subrange(0, i + 1), choice, x)) by {
                assert(set@.to_set().contains(x) == set@.contains(x));
                assert(before.to_set().contains(x) == before.contains(x));
                if among_pending(slots@.subrange(0, i + 1), choice, x) {
                    let k = choose|k: int| 0 <= k < i + 1 && (#[trigger] slots@.subrange(0, i + 1)[k]).1 && x == if choice {
                        Request::Choice(slots@.subrange(0, i + 1)[k].0)
                    } else {
                        Request::Dialogue(slots@.subrange(0, i + 1)[k].0)
                    };
                    if k < i {
                        assert(slots@.subrange(0, i as int)[k] == slots@.subrange(0, i + 1)[k]);
                    }
                }
                if among_pending(slots@.subrange(0, i as int), choice, x) {
                    let k = choose|k: int| 0 <= k < i && (#[trigger] slots@.subrange(0, i as int)[k]).1 && x == if choice {
                        Request::Choice(slots@.subrange(0, i as int)[k].0)
                    } else {
                        Request::Dialogue(slots@.subrange(0, i as int)[k].0)
                    };
                    assert(slots@.subrange(0, i + 1)[k] == slots@.subrange(0, i as int)[k]);
                }
                if pending && x == (if choice { Request::Choice(slot) } else { Request::Dialogue(slot) }) {
                    assert(slots@.subrange(0, i + 1)[i as int] == slots@[i as int]);
                }
            }
        }
        i = i + 1;
    }
    proof {
        assert(slots@.subrange(0, slots@.len() as int) =~= slots@);
    }
}

/// Adds the requests of one model part of `actor`.
pub fn actor_requests(set: &mut RequestSet, actor: &ActorState, part: usize)
    ensures
        forall|r: Request| #[trigger] final(set)@.contains(r) == (old(set)@.contains(r) || part_request(*actor, part as int, r)),
{
    let ghost start = set@;
    set.insert(Request::Actor(actor.id, part));
    if let Some((resource, slot)) = actor.animation {
        set.insert(Request::Animation { actor: actor.id, part, resource, slot });
    }
    if actor.attached {
        set.insert(Request::Attachment(actor.id, part));
    }
    let ghost middle = set@;
    proof {
        assert forall|x: Request| #[trigger] middle.contains(x) == (start.contains(x)
            || x == Request::Actor(actor.id, part)
            || (actor.animation matches Some((resource, slot)) && x == (Request::Animation { actor: actor.id, part, resource, slot }))
            || (actor.attached && x == Request::Attachment(actor.id, part))) by {
            assert(middle.to_set().contains(x) == middle.contains(x));
            assert(start.to_set().contains(x) == start.contains(x));
        }
    }
    let mut k: usize = 0;
    while k < actor.bone_slots.len()
        invariant
            k <= actor.bone_slots@.len(),
            forall|x: Request| #[trigger] set@.contains(x) == (middle.contains(x)
                || exists|j: int| 0 <= j < k && x == Request::Bone(actor.id, part, #[trigger] actor.bone_slots@[j])),
        decreases actor.bone_slots@.len() - k,
    {
        let ghost before = set@;
        set.insert(Request::Bone(actor.id, part, actor.bone_slots[k]));
        proof {
            assert forall|x: Request| #[trigger] set@.contains(x) == (middle.contains(x)
                || exists|j: int| 0 <= j < k + 1 && x == Request::Bone(actor.id, part, #[trigger] actor.bone_slots@[j])) by {
                assert(set@.to_set().contains(x) == set@.contains(x));
                assert(before.to_set().contains(x) == before.contains(x));
                if x == Request::Bone(actor.id, part, actor.bone_slots@[k as int]) {
                    assert(0 <= k < k + 1);
                }
            }
        }
        k = k + 1;
    }
    proof {
        assert forall|x: Request| #[trigger] set@.contains(x) == (start.contains(x) || part_request(*actor, part as int, x)) by {
            if exists|j: int| 0 <= j < actor.bone_slots@.len() && x == Request::Bone(actor.id, part, #[trigger] actor.bone_slots@[j]) {
                let j = choose|j: int| 0 <= j < actor.bone_slots@.len() && x == Request::Bone(actor.id, part, #[trigger] actor.bone_slots@[j]);
                assert(x == Request::Bone(actor.id, part as int as usize, actor.bone_slots@[j]));
            }
            if part_request(*actor, part as int, x) {
                if exists|j: int| 0 <= j < actor.bone_slots@.len() && x == Request::Bone(actor.id, part as int as usize, #[trigger] actor.bone_slots@[j]) {
                    let j = choose|j: int| 0 <= j < actor.bone_slots@.len() && x == Request::Bone(actor.id, part as int as usize, #[trigger] actor.bone_slots@[j]);
                    assert(x == Request::Bone(actor.id, part, actor.bone_slots@[j]));
                }
            }
        }
    }
}

/// Every request that the VM world expects this frame.
pub fn expected(w: &WorldState) -> (set: RequestSet)
    ensures
        forall|r: Request| #[trigger] set@.contains(r) == expects(*w, r),
{
    let mut set = RequestSet::new();
    let mut i: usize = 0;
    while i < w.actors.len()
        invariant
            i <= w.actors@.len(),
            forall|r: Request| #[trigger] set@.contains(r) == exists|a: int, part: int| #![trigger part_request(w.actors@[a], part, r)] 0 <= a < i && shown(w.actors@[a])
                && 0 <= part < part_count(w.actors@[a]) && part_request(w.actors@[a], part, r),
        decreases w.actors@.len() - i,
    {
        let actor = &w.actors[i];
        let ghost before = set@;
        if actor.visible && !actor.model_hidden {
            let count: usize = if actor.parts > 1 { actor.parts } else { 1 };
            let mut part: usize = 0;
            while part < count
                invariant
                    part <= count,
                    count == part_count(*actor),
                    *actor == w.actors@[i as int],
                    shown(*actor),
                    forall|r: Request| #[trigger] set@.contains(r) == (before.contains(r)
                        || exists|p: int| 0 <= p < part && #[trigger] part_request(*actor, p, r)),
                decreases count - part,
            {
                let ghost inner = set@;
                actor_requests(&mut set, actor, part);
                proof {
                    assert forall|r: Request| #[trigger] set@.contains(r) == (before.contains(r)
                        || exists|p: int| 0 <= p < part + 1 && #[trigger] part_request(*actor, p, r)) by {
                        if part_request(*actor, part as int, r) {
                            assert(0 <= part < part + 1);
                        }
                    }
                }
                part = part + 1;
            }
        }
        proof {
            assert forall|r: Request| #[trigger] set@.contains(r) == exists|a: int, part: int| #![trigger part_request(w.actors@[a], part, r)] 0 <= a < i + 1 && shown(w.actors@[a])
                && 0 <= part < part_count(w.actors@[a]) && part_request(w.actors@[a], part, r) by {
                if exists|a: int, part: int| #![trigger part_request(w.actors@[a], part, r)] 0 <= a < i + 1 && shown(w.actors@[a])
                    && 0 <= part < part_count(w.actors@[a]) && part_request(w.actors@[a], part, r) {
                    let (a, part) = choose|a: int, part: int| #![trigger part_request(w.actors@[a], part, r)] 0 <= a < i + 1 && shown(w.actors@[a])
                        && 0 <= part < part_count(w.actors@[a]) && part_request(w.actors@[a], part, r);
                    if a == i {
                        assert(part_request(*actor, part, r));
                    }
                }
            }
        }
        i = i + 1;
    }
    let ghost actors_done = set@;
    add_ids(&mut set, &w.emotes, 8);
    if w.paralysis {
        set.insert(Request::Paralysis);
    }
    let ghost paralysis_done = set@;
    proof {
        assert forall|r: Request| #[trigger] paralysis_done.contains(r) == (actors_done.contains(r) || among_ids(w.emotes@, 8, r)
            || (w.paralysis && r == Request::Paralysis)) by {
            assert(paralysis_done.to_set().contains(r) == paralysis_done.contains(r));
        }
    }
    add_ids(&mut set, &w.billboards, 10);
    add_ids(&mut set, &w.refractions, 11);
    add_ids(&mut set, &w.particles, 12);
    let ghost particles_done = set@;
    let mut index: usize = 0;
    while index < w.save_points
        invariant
            index <= w.save_points,
            forall|r: Request| #[trigger] set@.contains(r) == (particles_done.contains(r)
                || (r matches Request::SavePoint(k, pass) && k < index && pass < 2)),
        decreases w.save_points - index,
    {
        let ghost before = set@;
        set.insert(Request::SavePoint(index, 0));
        set.insert(Request::SavePoint(index, 1));
        proof {
            assert forall|r: Request| #[trigger] set@.contains(r) == (particles_done.contains(r)
                || (r matches Request::SavePoint(k, pass) && k < index + 1 && pass < 2)) by {
                assert(set@.to_set().contains(r) == set@.contains(r));
                assert(before.to_set().contains(r) == before.contains(r));
            }
        }
        index = index + 1;
    }
    add_pending(&mut set, &w.dialogue, false);
    add_pending(&mut set, &w.choices, true);
    add_ids(&mut set, &w.overlays, 16);
    if w.camera {
        set.insert(Request::Camera);
    }
    let ghost camera_done = set@;
    if w.fade {
        set.insert(Request::Fade);
    }
    proof {
        assert forall|r: Request| #[trigger] set@.contains(r) == expects(*w, r) by {
            assert(set@.to_set().contains(r) == set@.contains(r));
            assert(camera_done.to_set().contains(r) == camera_done.contains(r));
        }
    }
    set
}


/// What the audit reads of the presentation state at the start of a frame.
#[derive(Clone, Debug)]
pub struct FrameState {
    pub world: WorldState,
    /// The field artwork is prepared.
    pub art_ready: bool,
    /// For a live session, whether it is ready for the field and its artwork is
    /// for the current map; `None` for an isolated capture.
    pub live_ready: Option<bool>,
    /// A menu or shop is open.
    pub menu_open: bool,
    /// For an active skit, its dialogue slots, each with whether it is pending.
    pub skit: Option<Vec<(u8, bool)>>,
}

/// The per-actor requests of renderers beyond the model parts: eyes, secondary
/// motion, contact shadows and mouths of drawn actors.
pub open spec fn actor_extra(a: ActorState, r: Request) -> bool {
    &&& shown(a)
    &&& {
        ||| (a.eyes && r == Request::Eyes(a.id))
        ||| exists|k: int| 0 <= k < a.secondary_parts@.len() && r == Request::SecondaryMotion(a.id, #[trigger] a.secondary_parts@[k])
        ||| (a.casts_shadow && r == Request::Shadow(a.id))
        ||| (a.mouth && r == Request::Mouth(a.id))
    }
}

/// Whether request `r` is expected at the start of frame `f`.
pub open spec fn frame_expects(f: FrameState, r: Request) -> bool {
    ||| expects(f.world, r)
    ||| (f.menu_open && r == Request::Menu)
    ||| (f.skit matches Some(slots) && (r == Request::Skit || among_pending(slots@, false, r)))
    ||| exists|i: int| 0 <= i < f.world.actors@.len() && actor_extra(#[trigger] f.world.actors@[i], r)
}

/// Whether the audit is armed for frame `f`: the artwork is ready and a live
/// session, if any, is ready for this field.
pub open spec fn frame_armed(f: FrameState) -> bool {
    f.art_ready && (f.live_ready matches Some(ready) ==> ready)
}

/// The audit of one frame's presentation requests.
pub struct Applied {
    /// Requests acknowledged this frame.
    pub requests: RequestSet,
    /// Requests still loading, with the time their loading began.
    pub loading: LoadingMap,
    /// Whether unapplied requests are reported this frame.
    pub armed: bool,
    /// Requests expected this frame.
    pub expected: RequestSet,
}

/// Whether `r` is reported as unapplied at `now` (milliseconds): expected, not
/// acknowledged, and not loading for less than the timeout.
pub open spec fn reported(a: Applied, r: Request, now: u64) -> bool {
    &&& a.expected@.contains(r)
    &&& !a.requests@.contains(r)
    &&& (a.loading@.contains_key(r) ==> now >= a.loading@[r] + LOAD_TIMEOUT_MS)
}

impl Applied {
    /// An unarmed audit that expects nothing.
    pub fn new() -> (a: Self)
        ensures
            a.requests@ == Seq::<Request>::empty(),
            a.loading@ == Map::<Request, u64>::empty(),
            !a.armed,
            a.expected@ == Seq::<Request>::empty(),
    {
        Applied { requests: RequestSet::new(), loading: LoadingMap::new(), armed: false, expected: RequestSet::new() }
    }

    /// A renderer applied `request`: it is no longer loading.
    pub fn ack(&mut self, request: Request)
        ensures
            final(self).requests@.to_set() == old(self).requests@.to_set().insert(request),
            final(self).loading@ == old(self).loading@.remove(request),
            final(self).armed == old(self).armed,
            final(self).expected@ == old(self).expected@,
    {
        self.loading.remove(&request);
        self.requests.insert(request);
    }

    /// A renderer is still preparing `request`; its loading began at `now` unless
    /// it was already loading.
    pub fn loading(&mut self, request: Request, now: u64)
        ensures
            final(self).loading@ == if old(self).loading@.contains_key(request) {
                old(self).loading@
            } else {
                old(self).loading@.insert(request, now)
            },
            final(self).requests@ == old(self).requests@,
            final(self).armed == old(self).armed,
            final(self).expected@ == old(self).expected@,
    {
        self.loading.start(request, now);
    }

    /// The expected requests that were neither applied nor are within their
    /// loading time, in request order.
    pub fn unapplied(&self, now: u64) -> (missing: Vec<Request>)
        ensures
            sorted(missing@),
            forall|r: Request| #[trigger] missing@.contains(r) == reported(*self, r, now),
    {
        proof {
            use_type_invariant(&self.expected);
        }
        let mut missing: Vec<Request> = Vec::new();
        let mut i: usize = 0;
        while i < self.expected.len()
            invariant
                i <= self.expected@.len(),
                sorted(self.expected@),
                sorted(missing@),
                forall|k: int| 0 <= k < missing@.len() ==> exists|j: int| 0 <= j < i && #[trigger] missing@[k] == self.expected@[j],
                forall|r: Request| #[trigger] missing@.contains(r) == (exists|j: int| 0 <= j < i && self.expected@[j] == r
                    && reported(*self, r, now)),
            decreases self.expected@.len() - i,
        {
            let r = self.expected.get(i);
            let pending = match self.loading.get(&r) {
                Some(since) => now < since || now - since < LOAD_TIMEOUT_MS,
                None => false,
            };
            let ghost before = missing@;
            let report_it = !self.requests.contains(&r) && !pending;
            proof {
                assert(report_it == reported(*self, r, now));
                assert forall|j: int| 0 <= j < i implies self.expected@[j] != r by {
                    lemma_trichotomy(self.expected@[j], r);
                }
            }
            if report_it {
                proof {
                    assert forall|a: int, b: int| 0 <= a < b < missing@.len() + 1 implies precedes(
                        #[trigger] missing@.push(r)[a],
                        #[trigger] missing@.push(r)[b],
                    ) by {
                        if b == missing@.len() {
                            let j = choose|j: int| 0 <= j < i && #[trigger] missing@[a] == self.expected@[j];
                            assert(missing@.push(r)[a] == missing@[a]);
                        }
                    }
                }
                missing.push(r);
            }
            proof {
                assert forall|k: int| 0 <= k < missing@.len() implies exists|j: int| 0 <= j < i + 1 && #[trigger] missing@[k] == self.expected@[j] by {
                    if k == before.len() {
                        assert(missing@[k] == self.expected@[i as int]);
                    } else {
                        assert(missing@[k] == before[k]);
                        let j = choose|j: int| 0 <= j < i && #[trigger] before[k] == self.expected@[j];
                    }
                }
                assert forall|x: Request| #[trigger] missing@.contains(x) == (exists|j: int| 0 <= j < i + 1 && self.expected@[j] == x
                    && reported(*self, x, now)) by {
                    if x != r {
                        if missing@.contains(x) {
                            let k = choose|k: int| 0 <= k < missing@.len() && missing@[k] == x;
                            if k < before.len() {
                                assert(before[k] == x);
                                assert(before.contains(x));
                            }
                        }
                        if before.contains(x) {
                            let k = choose|k: int| 0 <= k < before.len() && before[k] == x;
                            assert(missing@[k] == x);
                        }
                        if exists|j: int| 0 <= j < i + 1 && self.expected@[j] == x && reported(*self, x, now) {
                            let j = choose|j: int| 0 <= j < i + 1 && self.expected@[j] == x && reported(*self, x, now);
                            assert(j != i);
                        }
                    } else {
                        if report_it {
                            assert(missing@[before.len() as int] == x);
                        } else {
                            assert(!before.contains(x));
                        }
                    }
                }
            }
            i = i + 1;
        }
        proof {
            assert forall|r: Request| #[trigger] missing@.contains(r) == reported(*self, r, now) by {
                if reported(*self, r, now) {
                    let j = choose|j: int| 0 <= j < self.expected@.len() && self.expected@[j] == r;
                }
            }
        }
        missing
    }

    /// The requests reported this frame: the unapplied ones when armed.
    pub fn check(&self, now: u64) -> (failures: Vec<Request>)
        ensures
            sorted(failures@),
            forall|r: Request| #[trigger] failures@.contains(r) == (self.armed && reported(*self, r, now)),
    {
        if self.armed {
            self.unapplied(now)
        } else {
            Vec::new()
        }
    }

    /// Starts a frame: forgets the acknowledgements, arms the audit when the
    /// artwork is ready, expects the frame's requests and stops tracking the
    /// loading of requests no longer expected.
    pub fn begin(&mut self, frame: &FrameState)
        ensures
            final(self).requests@ == Seq::<Request>::empty(),
            final(self).armed == frame_armed(*frame),
            forall|r: Request| #[trigger] final(self).expected@.contains(r) == frame_expects(*frame, r),
            final(self).loading@ == old(self).loading@.restrict(final(self).expected@.to_set()),
    {
        self.requests.clear();
        self.armed = frame.art_ready && match frame.live_ready {
            Some(ready) => ready,
            None => true,
        };
        let mut set = expected(&frame.world);
        let ghost base = set@;
        if frame.menu_open {
            set.insert(Request::Menu);
        }
        if let Some(slots) = &frame.skit {
            set.insert(Request::Skit);
            let ghost with_skit = set@;
            proof {
                assert forall|r: Request| #[trigger] with_skit.contains(r) == (base.contains(r)
                    || (frame.menu_open && r == Request::Menu) || r == Request::Skit) by {
                    assert(with_skit.to_set().contains(r) == with_skit.contains(r));
                }
            }
            add_pending(&mut set, slots, false);
        } else {
            proof {
                assert forall|r: Request| #[trigger] set@.contains(r) == (base.contains(r)
                    || (frame.menu_open && r == Request::Menu)) by {
                    assert(set@.to_set().contains(r) == set@.contains(r));
                }
            }
        }
        let ghost scene = set@;
        let mut i: usize = 0;
        while i < frame.world.actors.len()
            invariant
                i <= frame.world.actors@.len(),
                forall|r: Request| #[trigger] set@.contains(r) == (scene.contains(r)
                    || exists|a: int| 0 <= a < i && actor_extra(#[trigger] frame.world.actors@[a], r)),
            decreases frame.world.actors@.len() - i,
        {
            let actor = &frame.world.actors[i];
            let ghost before = set@;
            if actor.visible && !actor.model_hidden {
                if actor.eyes {
                    set.insert(Request::Eyes(actor.id));
                }
                let ghost with_eyes = set@;
                let mut k: usize = 0;
                while k < actor.secondary_parts.len()
                    invariant
                        k <= actor.secondary_parts@.len(),
                        forall|r: Request| #[trigger] set@.contains(r) == (with_eyes.contains(r)
                            || exists|j: int| 0 <= j < k && r == Request::SecondaryMotion(actor.id, #[trigger] actor.secondary_parts@[j])),
                    decreases actor.secondary_parts@.len() - k,
                {
                    let ghost inner = set@;
                    set.insert(Request::SecondaryMotion(actor.id, actor.secondary_parts[k]));
                    proof {
                        assert forall|r: Request| #[trigger] set@.contains(r) == (with_eyes.contains(r)
                            || exists|j: int| 0 <= j < k + 1 && r == Request::SecondaryMotion(actor.id, #[trigger] actor.secondary_parts@[j])) by {
                            assert(set@.to_set().contains(r) == set@.contains(r));
                            assert(inner.to_set().contains(r) == inner.contains(r));
                            if r == Request::SecondaryMotion(actor.id, actor.secondary_parts@[k as int]) {
                                assert(0 <= k < k + 1);
                            }
                        }
                    }
                    k = k + 1;
                }
                let ghost with_motion = set@;
                if actor.casts_shadow {
                    set.insert(Request::Shadow(actor.id));
                }
                if actor.mouth {
                    set.insert(Request::Mouth(actor.id));
                }
                proof {
                    assert forall|r: Request| #[trigger] set@.contains(r) == (before.contains(r) || actor_extra(*actor, r)) by {
                        assert(set@.to_set().contains(r) == set@.contains(r));
                        assert(with_motion.to_set().contains(r) == with_motion.contains(r));
                        assert(with_eyes.to_set().contains(r) == with_eyes.contains(r));
                        assert(before.to_set().contains(r) == before.contains(r));
                    }
                }
            }
            proof {
                assert forall|r: Request| #[trigger] set@.contains(r) == (scene.contains(r)
                    || exists|a: int| 0 <= a < i + 1 && actor_extra(#[trigger] frame.world.actors@[a], r)) by {
                    if actor_extra(*actor, r) {
                        assert(actor_extra(frame.world.actors@[i as int], r));
                    }
                }
            }
            i = i + 1;
        }
        proof {
            assert forall|r: Request| #[trigger] set@.contains(r) == frame_expects(*frame, r) by {}
        }
        self.expected = set;
        self.loading.retain(&self.expected);
    }
}

/// An acknowledged request is never reported as unapplied, however long it was
/// loading.
pub proof fn acknowledged_requests_are_not_reported(a: Applied, r: Request, now: u64)
    requires
        a.requests@.contains(r),
    ensures
        !reported(a, r, now),
{
}

/// A request that began loading less than the timeout ago is not reported.
pub proof fn loading_requests_are_tolerated_until_the_timeout(a: Applied, r: Request, now: u64)
    requires
        a.loading@.contains_key(r),
        now < a.loading@[r] + LOAD_TIMEOUT_MS,
    ensures
        !reported(a, r, now),
{
}

/// Loading hides an expected request only for the timeout: once it has been
/// loading that long without being acknowledged, it is reported.
pub proof fn loading_stops_hiding_a_request_at_the_timeout(a: Applied, r: Request, now: u64)
    requires
        a.expected@.contains(r),
        !a.requests@.contains(r),
        a.loading@.contains_key(r),
        now >= a.loading@[r] + LOAD_TIMEOUT_MS,
    ensures
        reported(a, r, now),
{
}

/// Every expected request that was neither acknowledged nor reported loading is
/// reported: no omission is hidden.
pub proof fn omissions_are_reported(a: Applied, r: Request, now: u64)
    requires
        a.expected@.contains(r),
        !a.requests@.contains(r),
        !a.loading@.contains_key(r),
    ensures
        reported(a, r, now),
{
}

/// Every pending choice window is expected, so a choice window the renderer
/// failed to draw is reported; and a choice window is expected only for a slot
/// that the world lists as pending.
pub proof fn pending_choices_are_expected(w: WorldState, slot: u8)
    ensures
        forall|k: int| 0 <= k < w.choices@.len() && (#[trigger] w.choices@[k]).1 ==> expects(w, Request::Choice(w.choices@[k].0)),
        expects(w, Request::Choice(slot)) ==> exists|k: int| 0 <= k < w.choices@.len() && #[trigger] w.choices@[k] == (slot, true),
{
    assert forall|k: int| 0 <= k < w.choices@.len() && (#[trigger] w.choices@[k]).1 implies expects(w, Request::Choice(w.choices@[k].0)) by {
        assert(among_pending(w.choices@, true, Request::Choice(w.choices@[k].0)));
    }
    if expects(w, Request::Choice(slot)) {
        assert(among_pending(w.choices@, true, Request::Choice(slot)));
        let k = choose|k: int| 0 <= k < w.choices@.len() && (#[trigger] w.choices@[k]).1 && Request::Choice(slot) == Request::Choice(w.choices@[k].0);
        assert(w.choices@[k] == (slot, true));
    }
}

/// Every pending dialogue window is expected, and a dialogue window is expected
/// only for a slot that the world lists as pending.
pub proof fn pending_dialogue_is_expected(w: WorldState, slot: u8)
    ensures
        forall|k: int| 0 <= k < w.dialogue@.len() && (#[trigger] w.dialogue@[k]).1 ==> expects(w, Request::Dialogue(w.dialogue@[k].0)),
        expects(w, Request::Dialogue(slot)) ==> exists|k: int| 0 <= k < w.dialogue@.len() && #[trigger] w.dialogue@[k] == (slot, true),
{
    assert forall|k: int| 0 <= k < w.dialogue@.len() && (#[trigger] w.dialogue@[k]).1 implies expects(w, Request::Dialogue(w.dialogue@[k].0)) by {
        assert(among_pending(w.dialogue@, false, Request::Dialogue(w.dialogue@[k].0)));
    }
    if expects(w, Request::Dialogue(slot)) {
        assert(among_pending(w.dialogue@, false, Request::Dialogue(slot)));
        let k = choose|k: int| 0 <= k < w.dialogue@.len() && (#[trigger] w.dialogue@[k]).1 && Request::Dialogue(slot) == Request::Dialogue(w.dialogue@[k].0);
        assert(w.dialogue@[k] == (slot, true));
    }
}

} // verus!
