use vstd::prelude::*;
use crate::value::{Value, SpecValue, vview};
use crate::errors::{Error, SpecError};

verus! {

/// One environment: a mutable set of bindings plus an optional parent link.
#[derive(Debug, PartialEq)]
pub struct Frame {
    pub parent: Option<usize>,
    pub vars: Vec<(String, Value)>,
}

/// Mathematical model of a frame: the bindings as a map.
pub struct SpecFrame {
    pub parent: Option<int>,
    pub vars: Map<Seq<char>, SpecValue>,
}

/// The map an association list denotes: later entries win (the runtime keeps
/// keys distinct, so the order never actually matters).
pub open spec fn assoc_map(s: Seq<(String, Value)>) -> Map<Seq<char>, SpecValue>
    decreases s.len(),
{
    if s.len() == 0 {
        Map::empty()
    } else {
        assoc_map(s.drop_last()).insert(s.last().0@, vview(s.last().1))
    }
}

/// No two entries bind the same name.
pub open spec fn keys_distinct(s: Seq<(String, Value)>) -> bool {
    forall|i: int, j: int| 0 <= i < j < s.len() ==> s[i].0@ != s[j].0@
}

impl View for Frame {
    type V = SpecFrame;

    open spec fn view(&self) -> SpecFrame {
        SpecFrame {
            parent: match self.parent {
                Some(p) => Some(p as int),
                None => None,
            },
            vars: assoc_map(self.vars@),
        }
    }
}

/// The whole scope structure: an arena of frames linked by parent indices.
/// Environments are aliased freely (a closure and its callers may share one),
/// so frames live in one place and everything else holds indices. A frame's
/// parent always comes earlier in the arena, and frames are never removed.
#[derive(Debug, PartialEq)]
pub struct Scope {
    pub frames: Vec<Frame>,
}

impl View for Scope {
    type V = Seq<SpecFrame>;

    open spec fn view(&self) -> Seq<SpecFrame> {
        Seq::new(self.frames@.len(), |i: int| self.frames@[i]@)
    }
}

/// Every frame of `a` except the one at `frame` is unchanged in `b`: all
/// an evaluation may touch are its own environment and frames it creates.
pub open spec fn frames_preserved_except(a: Seq<SpecFrame>, b: Seq<SpecFrame>, frame: int) -> bool {
    forall|i: int| 0 <= i < a.len() && i != frame ==> #[trigger] b[i] == a[i]
}

/// Every frame of `a` is unchanged in `b`: a call works entirely in frames
/// of its own making.
pub open spec fn frames_preserved(a: Seq<SpecFrame>, b: Seq<SpecFrame>) -> bool {
    forall|i: int| 0 <= i < a.len() ==> #[trigger] b[i] == a[i]
}

/// Resolution of a name along the parent chain, innermost frame first.
pub open spec fn chain_lookup(fr: Seq<SpecFrame>, f: int, name: Seq<char>) -> Option<SpecValue>
    decreases f,
{
    if 0 <= f < fr.len() {
        if fr[f].vars.contains_key(name) {
            Some(fr[f].vars[name])
        } else {
            match fr[f].parent {
                Some(p) => if 0 <= p < f {
                    chain_lookup(fr, p, name)
                } else {
                    None
                },
                None => None,
            }
        }
    } else {
        None
    }
}

/// What symbol resolution returns: the reserved literals and keyword symbols
/// come before the chain and cannot be shadowed; an unresolved name is an
/// `UnboundSymbol` error.
pub open spec fn spec_get_value(fr: Seq<SpecFrame>, f: int, name: Seq<char>) -> Result<
    SpecValue,
    SpecError,
> {
    if name == "nil"@ {
        Ok(SpecValue::Nil)
    } else if name == "true"@ {
        Ok(SpecValue::Boolean(true))
    } else if name == "false"@ {
        Ok(SpecValue::Boolean(false))
    } else if name.len() > 0 && name[0] == ':' {
        Ok(SpecValue::Symbol(name))
    } else {
        match chain_lookup(fr, f, name) {
            Some(v) => Ok(v),
            None => Err(SpecError::UnboundSymbol(name)),
        }
    }
}

proof fn lemma_assoc_found(s: Seq<(String, Value)>, i: int)
    requires
        keys_distinct(s),
        0 <= i < s.len(),
    ensures
        assoc_map(s).contains_key(s[i].0@),
        assoc_map(s)[s[i].0@] == vview(s[i].1),
    decreases s.len(),
{
    if i < s.len() - 1 {
        assert(keys_distinct(s.drop_last()));
        assert(s.drop_last()[i] == s[i]);
        lemma_assoc_found(s.drop_last(), i);
        assert(s.last().0@ != s[i].0@);
    }
}

proof fn lemma_assoc_missing(s: Seq<(String, Value)>, name: Seq<char>)
    requires
        forall|j: int| 0 <= j < s.len() ==> s[j].0@ != name,
    ensures
        !assoc_map(s).contains_key(name),
    decreases s.len(),
{
    if s.len() > 0 {
        lemma_assoc_missing(s.drop_last(), name);
    }
}

/// Equality of two strings' views, decided executably.
pub fn str_eq(a: &str, b: &str) -> (r: bool)
    ensures
        r == (a@ == b@),
{
    let sa = a.to_owned();
    let sb = b.to_owned();
    sa == sb
}

impl Scope {
    /// Every parent link points strictly earlier in the arena, and every
    /// frame's binding list keeps its keys distinct.
    pub open spec fn wf(&self) -> bool {
        &&& forall|i: int|
            0 <= i < self.frames@.len() ==> match (#[trigger] self.frames@[i]).parent {
                Some(p) => 0 <= p < i,
                None => true,
            }
        &&& forall|i: int| 0 <= i < self.frames@.len() ==> keys_distinct(#[trigger] self.frames@[i].vars@)
    }

    /// A new child environment of `parent`; its index is returned.
    pub fn push(&mut self, parent: usize) -> (id: usize)
        requires
            old(self).wf(),
            parent < old(self).frames@.len(),
        ensures
            final(self).wf(),
            id == old(self).frames@.len(),
            final(self).frames@.len() == old(self).frames@.len() + 1,
            final(self)@ == old(self)@.push(
                SpecFrame { parent: Some(parent as int), vars: Map::empty() },
            ),
    {
        let id = self.frames.len();
        self.frames.push(Frame { parent: Some(parent), vars: Vec::new() });
        proof {
            assert(final(self)@ =~= old(self)@.push(
                SpecFrame { parent: Some(parent as int), vars: Map::empty() },
            ));
        }
        id
    }

    /// Resolves a symbol: reserved literals first, then keyword symbols,
    /// then the bindings along the chain from `frame` outwards.
    pub fn get_value(&self, frame: usize, symbol: &str) -> (r: Result<Value, Error>)
        requires
            self.wf(),
            frame < self.frames@.len(),
        ensures
            match r {
                Ok(v) => spec_get_value(self@, frame as int, symbol@) == Ok::<
                    SpecValue,
                    SpecError,
                >(v@),
                Err(e) => spec_get_value(self@, frame as int, symbol@) == Err::<
                    SpecValue,
                    SpecError,
                >(e@),
            },
    {
        if str_eq(symbol, "nil") {
            return Ok(Value::Nil);
        }
        if str_eq(symbol, "true") {
            return Ok(Value::Boolean(true));
        }
        if str_eq(symbol, "false") {
            return Ok(Value::Boolean(false));
        }
        if symbol.unicode_len() > 0 && symbol.get_char(0) == ':' {
            return Ok(Value::Symbol(symbol.to_owned()));
        }
        let mut cur: usize = frame;
        loop
            invariant
                self.wf(),
                cur < self.frames@.len(),
                chain_lookup(self@, frame as int, symbol@) == chain_lookup(
                    self@,
                    cur as int,
                    symbol@,
                ),
                !(symbol@ == "nil"@),
                !(symbol@ == "true"@),
                !(symbol@ == "false"@),
                !(symbol@.len() > 0 && symbol@[0] == ':'),
            decreases cur,
        {
            let vars = &self.frames[cur].vars;
            let n = vars.len();
            let mut i: usize = 0;
            let mut found: Option<&Value> = None;
            while i < n
                invariant
                    n == vars.len(),
                    i <= n,
                    found is None ==> forall|j: int| 0 <= j < i ==> vars@[j].0@ != symbol@,
                    match found {
                        Some(v) => exists|j: int|
                            0 <= j < n && vars@[j].0@ == symbol@ && v == &vars@[j].1,
                        None => true,
                    },
                decreases n - i,
            {
                if str_eq(vars[i].0.as_str(), symbol) {
                    found = Some(&vars[i].1);
                    i = n;
                } else {
                    i = i + 1;
                }
            }
            match found {
                Some(v) => {
                    proof {
                        let j = choose|j: int|
                            0 <= j < vars@.len() && vars@[j].0@ == symbol@ && v == &vars@[j].1;
                        lemma_assoc_found(vars@, j);
                        assert(self@[cur as int].vars == assoc_map(vars@));
                    }
                    return Ok(v.clone());
                },
                None => {
                    proof {
                        lemma_assoc_missing(vars@, symbol@);
                        assert(self@[cur as int].vars == assoc_map(vars@));
                    }
                    match self.frames[cur].parent {
                        Some(p) => {
                            cur = p;
                        },
                        None => {
                            return Err(Error::UnboundSymbol(symbol.to_owned()));
                        },
                    }
                },
            }
        }
    }

    /// Binds `symbol` to `value` in exactly the given frame, replacing any
    /// existing binding of that name there.
    pub fn set_value(&mut self, frame: usize, symbol: String, value: Value) -> (r: ())
        requires
            old(self).wf(),
            frame < old(self).frames@.len(),
        ensures
            final(self).wf(),
            final(self).frames@.len() == old(self).frames@.len(),
            final(self)@ == old(self)@.update(
                frame as int,
                SpecFrame {
                    parent: old(self)@[frame as int].parent,
                    vars: old(self)@[frame as int].vars.insert(symbol@, value@),
                },
            ),
    {
        let ghost oldvars = self.frames@[frame as int].vars@;
        let n = self.frames[frame].vars.len();
        let mut i: usize = 0;
        let mut hit: Option<usize> = None;
        while i < n
            invariant
                n == self.frames@[frame as int].vars@.len(),
                frame < self.frames@.len(),
                i <= n,
                self.frames@[frame as int].vars@ == oldvars,
                hit is None ==> forall|j: int| 0 <= j < i ==> oldvars[j].0@ != symbol@,
                match hit {
                    Some(h) => h < n && oldvars[h as int].0@ == symbol@,
                    None => true,
                },
            decreases n - i,
        {
            if str_eq(self.frames[frame].vars[i].0.as_str(), symbol.as_str()) {
                hit = Some(i);
                i = n;
            } else {
                i = i + 1;
            }
        }
        match hit {
            Some(h) => {
                let ghost vname = symbol@;
                let ghost vval = vview(value);
                self.frames[frame].vars.set(h, (symbol, value));
                proof {
                    let newvars = self.frames@[frame as int].vars@;
                    assert(newvars == oldvars.update(h as int, newvars[h as int]));
                    lemma_assoc_update(oldvars, newvars, h as int);
                }
            },
            None => {
                let ghost entry = (symbol@, vview(value));
                self.frames[frame].vars.push((symbol, value));
                proof {
                    let newvars = self.frames@[frame as int].vars@;
                    assert(newvars.drop_last() =~= oldvars);
                    assert(assoc_map(newvars) == assoc_map(oldvars).insert(entry.0, entry.1));
                    assert(keys_distinct(newvars));
                }
            },
        }
        proof {
            assert(final(self)@ =~= old(self)@.update(
                frame as int,
                SpecFrame {
                    parent: old(self)@[frame as int].parent,
                    vars: old(self)@[frame as int].vars.insert(symbol@, value@),
                },
            ));
        }
    }
}

proof fn lemma_assoc_update(s: Seq<(String, Value)>, t: Seq<(String, Value)>, h: int)
    requires
        keys_distinct(s),
        0 <= h < s.len(),
        t.len() == s.len(),
        t[h].0@ == s[h].0@,
        forall|j: int| 0 <= j < s.len() && j != h ==> t[j] == s[j],
    ensures
        assoc_map(t) == assoc_map(s).insert(t[h].0@, vview(t[h].1)),
        keys_distinct(t),
    decreases s.len(),
{
    assert(keys_distinct(t));
    if h == s.len() - 1 {
        assert(t.drop_last() =~= s.drop_last());
        assert(assoc_map(t) == assoc_map(s.drop_last()).insert(t[h].0@, vview(t[h].1)));
        assert(assoc_map(s).insert(t[h].0@, vview(t[h].1)) =~= assoc_map(s.drop_last()).insert(
            t[h].0@,
            vview(t[h].1),
        ));
    } else {
        assert(keys_distinct(s.drop_last()));
        assert(t.drop_last()[h] == t[h]);
        assert(forall|j: int|
            0 <= j < s.drop_last().len() && j != h ==> t.drop_last()[j] == s.drop_last()[j]);
        lemma_assoc_update(s.drop_last(), t.drop_last(), h);
        assert(t.last() == s.last());
        assert(s.last().0@ != s[h].0@);
        assert(assoc_map(t) == assoc_map(t.drop_last()).insert(t.last().0@, vview(t.last().1)));
        assert(assoc_map(t) =~= assoc_map(s).insert(t[h].0@, vview(t[h].1)));
    }
}


/// The bindings of a fresh root environment: the special-form set followed
/// by the native function library.
pub open spec fn root_bindings() -> Map<Seq<char>, SpecValue> {
    crate::functions::with_native_entries(
        crate::macros::with_macro_entries(Map::empty()),
    )
}

/// The frames of a fresh root environment: one parentless frame holding the
/// root bindings.
pub open spec fn root_frames() -> Seq<SpecFrame> {
    seq![SpecFrame { parent: None, vars: root_bindings() }]
}

impl Scope {
    /// A fresh root environment, pre-populated with the special forms and
    /// the native function library; it has no parent.
    pub fn root() -> (s: Scope)
        ensures
            s.wf(),
            s.frames@.len() == 1,
            s@.len() == 1,
            s@[0].parent is None,
            s@[0].vars == root_bindings(),
    {
        let frame = Frame { parent: None, vars: Vec::new() };
        let mut sc = Scope { frames: vec![frame] };
        proof {
            assert(sc.frames@.len() == 1);
            assert(sc.frames@[0].vars@.len() == 0);
            assert(keys_distinct(sc.frames@[0].vars@));
            assert(sc.wf());
            assert(sc@[0].vars =~= Map::<Seq<char>, SpecValue>::empty());
        }
        crate::macros::register(&mut sc, 0);
        crate::functions::register(&mut sc, 0);
        proof {
            assert(sc@[0].vars =~= root_bindings());
        }
        sc
    }
}

} // verus!
