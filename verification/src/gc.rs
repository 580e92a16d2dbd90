//! Global environments: frames of named bindings kept in a heap and
//! addressed by handles.  A frame may have a parent frame, consulted when a
//! name is not bound in the frame itself.

use vstd::prelude::*;
use crate::expr::{Expr, SExpr, strings_view, exprs_view, lemma_exprs_view, lemma_exprs_view_push};
use crate::host::{Host, Exchange, Request, Answers, consistent, lemma_consistent_push, names_value};

verus! {

/// A handle to a frame of the heap.
pub type GcHandle = usize;

/// Mathematical model of one frame.
pub struct FrameV {
    pub names: Seq<Seq<char>>,
    pub values: Seq<SExpr>,
    pub parent: Option<nat>,
}

/// Mathematical model of the heap: its frames, and the exchanges with the
/// host so far.
pub struct HeapV {
    pub frames: Seq<FrameV>,
    pub log: Seq<Exchange>,
}

impl HeapV {
    /// Number of frames.
    #[verifier::inline]
    pub open spec fn len(self) -> nat {
        self.frames.len()
    }

    /// Frame `i`.
    #[verifier::inline]
    pub open spec fn spec_index(self, i: int) -> FrameV {
        self.frames[i]
    }

    /// The heap with one more frame.
    pub open spec fn push(self, f: FrameV) -> HeapV {
        HeapV { frames: self.frames.push(f), ..self }
    }
}

pub struct Frame {
    names: Vec<String>,
    values: Vec<Expr>,
    parent: Option<usize>,
}

/// All frames, and a record of the exchanges with the host so far.
pub struct Heap {
    frames: Vec<Frame>,
    log: Ghost<Seq<Exchange>>,
}

pub closed spec fn frame_view(f: Frame) -> FrameV {
    FrameV {
        names: strings_view(f.names@),
        values: exprs_view(f.values@),
        parent: match f.parent { Some(p) => Some(p as nat), None => None },
    }
}

impl View for Heap {
    type V = HeapV;

    closed spec fn view(&self) -> HeapV {
        HeapV { frames: self.frames@.map_values(|f: Frame| frame_view(f)), log: self.log@ }
    }
}

/// Every frame has as many values as names, and its parent comes before it.
pub open spec fn heap_wf(h: HeapV) -> bool {
    forall|i: int| 0 <= i < h.len() ==> {
        &&& #[trigger] h[i].names.len() == h[i].values.len()
        &&& (h[i].parent matches Some(p) ==> p < i)
    }
}

/// Well-formedness depends on the frames alone.
pub proof fn lemma_wf_frames(h1: HeapV, h2: HeapV)
    requires h1.frames == h2.frames,
    ensures heap_wf(h1) == heap_wf(h2),
{
    if heap_wf(h1) {
        assert forall|i: int| 0 <= i < h2.len() implies {
            &&& #[trigger] h2[i].names.len() == h2[i].values.len()
            &&& (h2[i].parent matches Some(p) ==> p < i)
        } by { assert(h1[i] == h2[i]); assert(h1[i].names.len() == h1[i].values.len()); }
    }
    if heap_wf(h2) {
        assert forall|i: int| 0 <= i < h1.len() implies {
            &&& #[trigger] h1[i].names.len() == h1[i].values.len()
            &&& (h1[i].parent matches Some(p) ==> p < i)
        } by { assert(h1[i] == h2[i]); assert(h2[i].names.len() == h2[i].values.len()); }
    }
}

pub open spec fn valid_env(h: HeapV, env: nat) -> bool {
    env < h.len()
}

/// Position of the first binding of `k` in `names`.
pub open spec fn find_name(names: Seq<Seq<char>>, k: Seq<char>) -> Option<nat>
    decreases names.len(),
{
    if names.len() == 0 {
        None
    } else if names[0] == k {
        Some(0)
    } else {
        match find_name(names.skip(1), k) {
            Some(i) => Some(i + 1),
            None => None,
        }
    }
}

/// The value of `k` seen from frame `env`: its own binding, else the
/// parent's.
pub open spec fn lookup(h: HeapV, env: nat, k: Seq<char>) -> Option<SExpr>
    decreases env,
{
    if env >= h.len() {
        None
    } else {
        match find_name(h[env as int].names, k) {
            Some(i) => Some(h[env as int].values[i as int]),
            None => match h[env as int].parent {
                Some(p) => if p < env { lookup(h, p, k) } else { None },
                None => None,
            },
        }
    }
}

/// Binds `k` to `v` in frame `env`, replacing an existing binding.
pub open spec fn bind(h: HeapV, env: nat, k: Seq<char>, v: SExpr) -> HeapV {
    if env >= h.len() {
        h
    } else {
        let f = h[env as int];
        let f2 = match find_name(f.names, k) {
            Some(i) => FrameV { values: f.values.update(i as int, v), ..f },
            None => FrameV { names: f.names.push(k), values: f.values.push(v), ..f },
        };
        HeapV { frames: h.frames.update(env as int, f2), ..h }
    }
}

proof fn lemma_find_name(names: Seq<Seq<char>>, k: Seq<char>)
    ensures
        find_name(names, k) matches Some(i) ==> i < names.len() && names[i as int] == k
            && forall|j: int| 0 <= j < i ==> names[j] != k,
        find_name(names, k) is None ==> forall|j: int| 0 <= j < names.len() ==> names[j] != k,
    decreases names.len(),
{
    if names.len() > 0 {
        lemma_find_name(names.skip(1), k);
        if names[0] != k {
            assert forall|j: int| 1 <= j < names.len() implies names[j] == names.skip(1)[j - 1] by {}
        }
    }
}

#[verifier::spinoff_prover]
pub proof fn lemma_bind_wf(h: HeapV, env: nat, k: Seq<char>, v: SExpr)
    requires heap_wf(h),
    ensures heap_wf(bind(h, env, k, v)), bind(h, env, k, v).len() == h.len(),
{
    if env < h.len() {
        let f = h[env as int];
        lemma_find_name(f.names, k);
        let h2 = bind(h, env, k, v);
        assert(h2[env as int].names.len() == h2[env as int].values.len());
        assert(h2[env as int].parent == f.parent);
        assert forall|i: int| 0 <= i < h2.len() implies {
            &&& #[trigger] h2[i].names.len() == h2[i].values.len()
            &&& (h2[i].parent matches Some(p) ==> p < i)
        } by {
            if i != env {
                assert(h2[i] == h[i]);
            }
        }
        assert(heap_wf(h2));
    } else {
        assert(bind(h, env, k, v) == h);
    }
}

/// After binding `k` in frame `env`, looking up `k` from `env` gives the new
/// value, and every other name is looked up as before.
pub proof fn lemma_lookup_bind(h: HeapV, env: nat, k: Seq<char>, v: SExpr, k2: Seq<char>)
    requires heap_wf(h), valid_env(h, env),
    ensures
        lookup(bind(h, env, k, v), env, k) == Some(v),
        k2 != k ==> lookup(bind(h, env, k, v), env, k2) == lookup(h, env, k2),
{
    let f = h[env as int];
    lemma_find_name(f.names, k);
    let h2 = bind(h, env, k, v);
    let f2 = h2[env as int];
    lemma_find_name(f2.names, k);
    lemma_find_name(f.names, k2);
    lemma_find_name(f2.names, k2);
    match find_name(f.names, k) {
        Some(i) => {
            assert(f2.names == f.names);
        },
        None => {
            assert(f2.names == f.names.push(k));
            if find_name(f2.names, k) != Some(f.names.len()) {
                match find_name(f2.names, k) {
                    Some(j) => { assert(j < f.names.len()); }
                    None => { assert(f2.names[f.names.len() as int] == k); }
                }
            }
        },
    }
    if k2 != k {
        lemma_lookup_frame_other(h, env, k, v, k2);
    }
}

proof fn lemma_lookup_frame_other(h: HeapV, env: nat, k: Seq<char>, v: SExpr, k2: Seq<char>)
    requires heap_wf(h), valid_env(h, env), k2 != k,
    ensures lookup(bind(h, env, k, v), env, k2) == lookup(h, env, k2),
{
    let f = h[env as int];
    let h2 = bind(h, env, k, v);
    let f2 = h2[env as int];
    lemma_find_name(f.names, k);
    lemma_find_name(f.names, k2);
    lemma_find_name(f2.names, k2);
    assert(f2.parent == f.parent);
    match find_name(f.names, k2) {
        Some(i) => {
            match find_name(f2.names, k2) {
                Some(j) => {
                    if j < i { assert(f.names[j as int] == f2.names[j as int]); }
                    if i < j { assert(f.names[i as int] == f2.names[i as int]); }
                    assert(i == j);
                    assert(find_name(f.names, k) != Some(i));
                },
                None => { assert(f2.names[i as int] == f.names[i as int]); },
            }
        },
        None => {
            match find_name(f2.names, k2) {
                Some(j) => {
                    if j < f.names.len() { assert(f2.names[j as int] == f.names[j as int]); }
                },
                None => {},
            }
            match f.parent {
                Some(p) => {
                    if p < env {
                        lemma_lookup_lower_frames(h, env, k, v, p, k2);
                    }
                },
                None => {},
            }
        },
    }
}

/// Binding in frame `env` does not change lookups that start below `env`.
proof fn lemma_lookup_lower_frames(h: HeapV, env: nat, k: Seq<char>, v: SExpr, start: nat, k2: Seq<char>)
    requires heap_wf(h), valid_env(h, env), start < env,
    ensures lookup(bind(h, env, k, v), start, k2) == lookup(h, start, k2),
    decreases start,
{
    let h2 = bind(h, env, k, v);
    assert(h2[start as int] == h[start as int]);
    match find_name(h[start as int].names, k2) {
        Some(i) => {},
        None => match h[start as int].parent {
            Some(p) => { if p < start { lemma_lookup_lower_frames(h, env, k, v, p, k2); } },
            None => {},
        },
    }
}

impl Heap {
    pub open spec fn wf(&self) -> bool {
        heap_wf(self@)
    }

    /// The exchanges with the host recorded so far.
    pub open spec fn calls(&self) -> Seq<Exchange> {
        self@.log
    }

    /// Records an exchange with the host.
    fn record(&mut self, x: Ghost<Exchange>)
        ensures
            final(self)@ == (HeapV { log: old(self)@.log.push(x@), ..old(self)@ }),
            forall|o: Answers| #[trigger] consistent(final(self).calls(), o) <==>
                (consistent(old(self).calls(), o) && o(old(self).calls().len()) == x@.1),
    {
        self.log = Ghost(self.log@.push(x@));
        proof {
            assert forall|o: Answers| #[trigger] consistent(self.calls(), o) <==>
                (consistent(old(self).calls(), o) && o(old(self).calls().len()) == x@.1) by {
                lemma_consistent_push(old(self).calls(), x@, o);
            }
        }
    }

    /// Asks the host to apply its primitive `name` to `args`, recording the
    /// request and the answer (`None` for a failure).
    pub(crate) fn ask_native<H: Host>(&mut self, host: &H, name: &str, args: &[Expr]) -> (r: Result<Expr, String>)
        ensures
            final(self)@ == (HeapV {
                log: old(self)@.log.push((Request::Native(name@, exprs_view(args@)), match r {
                    Ok(v) => Ok(v@),
                    Err(m) => Err(m@),
                })),
                ..old(self)@
            }),
            forall|o: Answers| #[trigger] consistent(final(self).calls(), o) <==>
                (consistent(old(self).calls(), o) && o(old(self).calls().len()) == final(self).calls().last().1),
    {
        let r = host.call_native(name, args);
        let ghost a = if r is Ok { Ok(r->Ok_0@) } else { Err::<SExpr, Seq<char>>(r->Err_0@) };
        self.record(Ghost((Request::Native(name@, exprs_view(args@)), a)));
        r
    }

    /// Asks the host to read `text` as a number, recording the request and
    /// the answer.
    pub(crate) fn ask_read_number<H: Host>(&mut self, host: &H, text: &str) -> (r: Option<u64>)
        ensures
            final(self)@ == (HeapV {
                log: old(self)@.log.push((Request::ReadNumber(text@), match r {
                    Some(b) => Ok(SExpr::Number(b)),
                    None => Err(Seq::empty()),
                })),
                ..old(self)@
            }),
            forall|o: Answers| #[trigger] consistent(final(self).calls(), o) <==>
                (consistent(old(self).calls(), o) && o(old(self).calls().len()) == final(self).calls().last().1),
    {
        let r = host.read_number(text);
        let ghost a = if r is Some { Ok(SExpr::Number(r->Some_0)) } else { Err::<SExpr, Seq<char>>(Seq::empty()) };
        self.record(Ghost((Request::ReadNumber(text@), a)));
        r
    }

    /// Asks the host to show the number `bits`, recording the request and
    /// the answer.
    pub(crate) fn ask_show_number<H: Host>(&mut self, host: &H, bits: u64) -> (r: String)
        ensures
            final(self)@ == (HeapV {
                log: old(self)@.log.push((Request::ShowNumber(bits), Ok(SExpr::Str(r@)))),
                ..old(self)@
            }),
            forall|o: Answers| #[trigger] consistent(final(self).calls(), o) <==>
                (consistent(old(self).calls(), o) && o(old(self).calls().len()) == final(self).calls().last().1),
    {
        let r = host.show_number(bits);
        self.record(Ghost((Request::ShowNumber(bits), Ok(SExpr::Str(r@)))));
        r
    }

    /// Asks the host for the names of its primitives, recording the request
    /// and the answer.
    pub(crate) fn ask_native_names<H: Host>(&mut self, host: &H) -> (r: Vec<String>)
        ensures
            final(self)@ == (HeapV {
                log: old(self)@.log.push((Request::NativeNames, Ok(names_value(strings_view(r@))))),
                ..old(self)@
            }),
            forall|o: Answers| #[trigger] consistent(final(self).calls(), o) <==>
                (consistent(old(self).calls(), o) && o(old(self).calls().len()) == final(self).calls().last().1),
    {
        let r = host.native_names();
        self.record(Ghost((Request::NativeNames, Ok(names_value(strings_view(r@))))));
        r
    }

    /// An empty heap.
    pub fn new() -> (h: Heap)
        ensures h.wf(), h@ == (HeapV { frames: Seq::<FrameV>::empty(), log: Seq::<Exchange>::empty() }),
    {
        let h = Heap { frames: Vec::new(), log: Ghost(Seq::empty()) };
        assert(h@.frames =~= Seq::<FrameV>::empty());
        h
    }

    /// Checks that the heap is well formed.
    pub fn check_wf(&self) -> (b: bool)
        ensures b == self.wf(),
    {
        let mut i: usize = 0;
        while i < self.frames.len()
            invariant
                i <= self.frames@.len(),
                forall|j: int| 0 <= j < i ==> {
                    &&& #[trigger] self@[j].names.len() == self@[j].values.len()
                    &&& (self@[j].parent matches Some(q) ==> q < j)
                },
            decreases self.frames@.len() - i,
        {
            let f = &self.frames[i];
            assert(frame_view(*f) == self@[i as int]);
            proof { lemma_exprs_view(f.values@); }
            assert(self@[i as int].names.len() == f.names@.len());
            assert(self@[i as int].values.len() == f.values@.len());
            assert(self@[i as int].parent == match f.parent { Some(p) => Some(p as nat), None => None::<nat> });
            if f.names.len() != f.values.len() {
                assert(!heap_wf(self@) || !(self@[i as int].names.len() == self@[i as int].values.len()));
                return false;
            }
            match f.parent {
                Some(p) => {
                    if p >= i {
                        assert(self@[i as int].parent == Some(p as nat));
                        assert(!heap_wf(self@) || !(self@[i as int].names.len() == self@[i as int].values.len()));
                        return false;
                    }
                },
                None => {},
            }
            assert(self@[i as int].names.len() == self@[i as int].values.len());
            assert(self@[i as int].parent matches Some(q) ==> q < i);
            assert forall|j: int| 0 <= j < i + 1 implies {
                &&& #[trigger] self@[j].names.len() == self@[j].values.len()
                &&& (self@[j].parent matches Some(q) ==> q < j)
            } by {
                if j < i {
                    assert(self@[j].names.len() == self@[j].values.len());
                }
            }
            i = i + 1;
        }
        assert(heap_wf(self@));
        true
    }

    /// Number of frames.
    pub fn len(&self) -> (n: usize)
        ensures n == self@.len(),
    {
        self.frames.len()
    }
}

/// Allocates an empty frame whose parent is `parent`.
pub fn new_env(heap: &mut Heap, parent: Option<GcHandle>) -> (env: GcHandle)
    requires
        old(heap).wf(),
        parent matches Some(p) ==> p < old(heap)@.len(),
    ensures
        final(heap).wf(),
        final(heap).calls() == old(heap).calls(),
        env == old(heap)@.len(),
        final(heap)@ == old(heap)@.push(FrameV {
            names: Seq::empty(),
            values: Seq::empty(),
            parent: match parent { Some(p) => Some(p as nat), None => None },
        }),
{
    let env = heap.frames.len();
    let f = Frame { names: Vec::new(), values: Vec::new(), parent };
    let ghost old_frames = heap.frames@;
    heap.frames.push(f);
    proof {
        assert(heap.frames@ == old_frames.push(f));
        assert(strings_view(f.names@) =~= Seq::empty());
        assert(exprs_view(f.values@) =~= Seq::empty());
        assert(heap@.frames =~= old(heap)@.frames.push(frame_view(f)));
    }
    env
}

/// Position of the first occurrence of `k` in `names`.
pub fn find_in(keys: &Vec<String>, k: &str) -> (r: Option<usize>)
    ensures
        match r {
            Some(i) => find_name(strings_view(keys@), k@) == Some(i as nat),
            None => find_name(strings_view(keys@), k@) is None,
        },
{
    let ghost names = strings_view(keys@);
    let mut i: usize = 0;
    assert(names.skip(0) =~= names);
    while i < keys.len()
        invariant
            i <= keys.len(),
            names == strings_view(keys@),
            find_name(names, k@) == match find_name(names.skip(i as int), k@) {
                Some(j) => Some((j + i) as nat),
                None => None,
            },
        decreases keys.len() - i,
    {
        if crate::text::str_eq(keys[i].as_str(), k) {
            assert(names.skip(i as int)[0] == k@);
            return Some(i);
        }
        assert(names.skip(i as int).skip(1) =~= names.skip(i + 1));
        i = i + 1;
    }
    assert(names.skip(i as int).len() == 0);
    None
}

/// Looks `k` up from frame `env`, following parents.
pub fn env_get(heap: &Heap, env: GcHandle, k: &str) -> (r: Result<Expr, String>)
    requires heap.wf(), env < heap@.len(),
    ensures
        match lookup(heap@, env as nat, k@) {
            Some(v) => r is Ok && r->Ok_0@ == v,
            None => r is Err && r->Err_0@ == "unbound symbol"@,
        },
{
    let mut cur: usize = env;
    loop
        invariant
            heap.wf(),
            cur < heap@.len(),
            lookup(heap@, env as nat, k@) == lookup(heap@, cur as nat, k@),
        decreases cur,
    {
        let ghost fv = heap@[cur as int];
        let f = &heap.frames[cur];
        assert(frame_view(*f) == fv);
        match find_in(&f.names, k) {
            Some(i) => {
                proof {
                    lemma_exprs_view(f.values@);
                    assert(fv.names.len() == fv.values.len());
                    lemma_find_name(fv.names, k@);
                }
                return Ok(f.values[i].deep_clone());
            },
            None => {
                match f.parent {
                    Some(p) => {
                        assert(p < cur);
                        cur = p;
                    },
                    None => {
                        return Err(crate::text::owned("unbound symbol"));
                    },
                }
            },
        }
    }
}

/// Binds `k` to `v` in frame `env`.
pub fn env_set(heap: &mut Heap, env: GcHandle, k: String, v: Expr)
    requires old(heap).wf(), env < old(heap)@.len(),
    ensures
        final(heap).wf(),
        final(heap)@ == bind(old(heap)@, env as nat, k@, v@),
        final(heap)@.len() == old(heap)@.len(),
        final(heap).calls() == old(heap).calls(),
{
    proof { lemma_bind_wf(heap@, env as nat, k@, v@); }
    let ghost h0 = heap@;
    let mut frames: Vec<Frame> = Vec::new();
    std::mem::swap(&mut frames, &mut heap.frames);
    assert(frames@.map_values(|f: Frame| frame_view(f)) == h0.frames);
    let mut f = frames.remove(env);
    let ghost fv = frame_view(f);
    assert(fv == h0[env as int]);
    match find_in(&f.names, k.as_str()) {
        Some(i) => {
            proof { lemma_exprs_view(f.values@); lemma_find_name(fv.names, k@); }
            let ghost vals0 = f.values@;
            f.values.set(i, v);
            proof {
                lemma_exprs_view(f.values@);
                assert(exprs_view(f.values@) =~= exprs_view(vals0).update(i as int, v@));
            }
        },
        None => {
            let ghost names0 = f.names@;
            let ghost vals0 = f.values@;
            f.names.push(k);
            f.values.push(v);
            proof {
                lemma_exprs_view_push(vals0, v);
                assert(strings_view(f.names@) =~= strings_view(names0).push(k@));
            }
        },
    }
    let ghost fv2 = frame_view(f);
    let ghost rest = frames@;
    frames.insert(env, f);
    proof {
        assert(frames@ =~= rest.insert(env as int, f));
    }
    heap.frames = frames;
    assert(heap@.frames =~= bind(h0, env as nat, k@, v@).frames);
}

} // verus!
