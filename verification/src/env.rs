//! Environments: frames of bindings, linked outward.

use crate::ast::Symbol;
use crate::value::{symbol_views, value_views, Builtin, Func, FuncModel, Value, ValueModel};
use vstd::prelude::*;
use vstd::string::StringExecFns;

verus! {

/// The mathematical model of one frame: its own bindings and the frame in
/// which a symbol is looked up when this one does not bind it.
pub struct FrameModel {
    pub bindings: Map<Seq<char>, ValueModel>,
    pub outer: Option<nat>,
}

/// The map that a list of names and a list of values stand for: a later entry
/// overrides an earlier one of the same name.
pub open spec fn assoc_map(names: Seq<Seq<char>>, values: Seq<ValueModel>) -> Map<
    Seq<char>,
    ValueModel,
>
    decreases names.len(),
{
    if names.len() == 0 || values.len() != names.len() {
        Map::empty()
    } else {
        assoc_map(names.drop_last(), values.drop_last()).insert(names.last(), values.last())
    }
}

/// No name occurs twice.
pub open spec fn distinct(names: Seq<Seq<char>>) -> bool {
    forall|i: int, j: int| 0 <= i < j < names.len() ==> names[i] != names[j]
}

/// The names of an association list are the keys of its map.
pub proof fn lemma_assoc_keys(names: Seq<Seq<char>>, values: Seq<ValueModel>, key: Seq<char>)
    requires
        names.len() == values.len(),
    ensures
        assoc_map(names, values).contains_key(key) <==> exists|i: int|
            0 <= i < names.len() && names[i] == key,
    decreases names.len(),
{
    if names.len() > 0 {
        lemma_assoc_keys(names.drop_last(), values.drop_last(), key);
        if assoc_map(names, values).contains_key(key) {
            if key == names.last() {
                assert(names[names.len() - 1] == key);
            } else {
                let i = choose|i: int| 0 <= i < names.drop_last().len() && names.drop_last()[i] == key;
                assert(names[i] == key);
            }
        }
        if exists|i: int| 0 <= i < names.len() && names[i] == key {
            let i = choose|i: int| 0 <= i < names.len() && names[i] == key;
            if i < names.len() - 1 {
                assert(names.drop_last()[i] == key);
            }
        }
    }
}

/// Where no name occurs twice, a name stands for the value at its own place.
pub proof fn lemma_assoc_at(names: Seq<Seq<char>>, values: Seq<ValueModel>, i: int)
    requires
        names.len() == values.len(),
        distinct(names),
        0 <= i < names.len(),
    ensures
        assoc_map(names, values).contains_key(names[i]),
        assoc_map(names, values)[names[i]] == values[i],
    decreases names.len(),
{
    if i < names.len() - 1 {
        lemma_assoc_at(names.drop_last(), values.drop_last(), i);
        assert(names.drop_last()[i] == names[i]);
    }
}

/// Where no name occurs twice, replacing the value at a place rebinds its name.
pub proof fn lemma_assoc_update(
    names: Seq<Seq<char>>,
    values: Seq<ValueModel>,
    i: int,
    value: ValueModel,
)
    requires
        names.len() == values.len(),
        distinct(names),
        0 <= i < names.len(),
    ensures
        assoc_map(names, values.update(i, value)) == assoc_map(names, values).insert(
            names[i],
            value,
        ),
    decreases names.len(),
{
    let updated = values.update(i, value);
    if i < names.len() - 1 {
        lemma_assoc_update(names.drop_last(), values.drop_last(), i, value);
        assert(updated.drop_last() =~= values.drop_last().update(i, value));
        assert(names.drop_last()[i] == names[i]);
        assert(assoc_map(names, updated) =~= assoc_map(names, values).insert(names[i], value));
    } else {
        assert(updated.drop_last() =~= values.drop_last());
        assert(assoc_map(names, updated) =~= assoc_map(names, values).insert(names[i], value));
    }
}

/// One frame: an association list in which no name occurs twice.
#[derive(Debug)]
pub struct Frame {
    names: Vec<Symbol>,
    values: Vec<Value>,
    outer: Option<usize>,
}

impl View for Frame {
    type V = FrameModel;

    closed spec fn view(&self) -> FrameModel {
        FrameModel {
            bindings: assoc_map(symbol_views(self.names@), value_views(self.values@)),
            outer: match self.outer {
                Some(outer) => Some(outer as nat),
                None => None,
            },
        }
    }
}

impl Frame {
    /// The frame holds as many values as names, and no name twice.
    pub closed spec fn wf(&self) -> bool {
        &&& self.names@.len() == self.values@.len()
        &&& distinct(symbol_views(self.names@))
    }

    /// An empty frame with the given outer link.
    pub fn new(outer: Option<usize>) -> (frame: Frame)
        ensures
            frame.wf(),
            frame@.bindings == Map::<Seq<char>, ValueModel>::empty(),
            frame@.outer == match outer {
                Some(o) => Some(o as nat),
                None => None,
            },
    {
        Frame { names: Vec::new(), values: Vec::new(), outer }
    }

    /// The outer link.
    pub fn outer(&self) -> (outer: Option<usize>)
        ensures
            self@.outer == match outer {
                Some(o) => Some(o as nat),
                None => None,
            },
    {
        self.outer
    }

    fn position(&self, key: &Symbol) -> (place: Option<usize>)
        requires
            self.wf(),
        ensures
            match place {
                Some(i) => i < self.names@.len() && self.names@[i as int]@ == key@,
                None => forall|j: int| 0 <= j < self.names@.len() ==> self.names@[j]@ != key@,
            },
    {
        let mut i: usize = 0;
        while i < self.names.len()
            invariant
                i <= self.names@.len(),
                forall|j: int| 0 <= j < i ==> self.names@[j]@ != key@,
            decreases self.names@.len() - i,
        {
            if self.names[i] == *key {
                return Some(i);
            }
            i += 1;
        }
        None
    }

    /// The value that this frame itself binds to `key`, if any.
    pub fn get(&self, key: &Symbol) -> (found: Option<&Value>)
        requires
            self.wf(),
        ensures
            match found {
                Some(value) => self@.bindings.contains_key(key@) && self@.bindings[key@] == value@,
                None => !self@.bindings.contains_key(key@),
            },
    {
        proof {
            lemma_assoc_keys(symbol_views(self.names@), value_views(self.values@), key@);
        }
        match self.position(key) {
            Some(i) => {
                proof {
                    lemma_assoc_at(symbol_views(self.names@), value_views(self.values@), i as int);
                }
                Some(&self.values[i])
            },
            None => None,
        }
    }

    /// Binds `key` to `value` in this frame, in place of what it was bound to.
    pub fn set(&mut self, key: Symbol, value: Value)
        requires
            old(self).wf(),
        ensures
            final(self).wf(),
            final(self)@.bindings == old(self)@.bindings.insert(key@, value@),
            final(self)@.outer == old(self)@.outer,
    {
        let ghost names = symbol_views(self.names@);
        let ghost values = value_views(self.values@);
        match self.position(&key) {
            Some(i) => {
                proof {
                    lemma_assoc_update(names, values, i as int, value@);
                }
                self.values.set(i, value);
                assert(value_views(self.values@) =~= values.update(i as int, value@));
            },
            None => {
                self.names.push(key);
                self.values.push(value);
                let ghost grown = symbol_views(self.names@);
                assert(grown.drop_last() =~= names);
                assert(value_views(self.values@).drop_last() =~= values);
                assert forall|i: int, j: int| 0 <= i < j < grown.len() implies grown[i]
                    != grown[j] by {
                    assert(grown[i] == names[i]);
                    if j < names.len() {
                        assert(grown[j] == names[j]);
                    }
                }
            },
        }
    }
}

impl Clone for Frame {
    fn clone(&self) -> (copy: Frame)
        ensures
            copy@ == self@,
            self.wf() ==> copy.wf(),
    {
        let mut names: Vec<Symbol> = Vec::new();
        let mut values: Vec<Value> = Vec::new();
        if self.names.len() != self.values.len() {
            return Frame { names, values, outer: self.outer };
        }
        let mut i: usize = 0;
        while i < self.names.len()
            invariant
                i <= self.names@.len(),
                self.names@.len() == self.values@.len(),
                names@.len() == i,
                values@.len() == i,
                forall|j: int| 0 <= j < i ==> names@[j]@ == self.names@[j]@,
                forall|j: int| 0 <= j < i ==> values@[j]@ == self.values@[j]@,
            decreases self.names@.len() - i,
        {
            names.push(self.names[i].clone());
            values.push(self.values[i].clone());
            i += 1;
        }
        assert(symbol_views(names@) =~= symbol_views(self.names@));
        assert(value_views(values@) =~= value_views(self.values@));
        Frame { names, values, outer: self.outer }
    }
}

/// The mathematical model of an [`Env`]: its frames, the root first. A frame is
/// named by its place in this sequence.
pub struct EnvModel {
    pub frames: Seq<FrameModel>,
}

impl EnvModel {
    /// The value that `name` resolves to from `frame`: that of the innermost
    /// frame of the chain that binds it.
    pub open spec fn lookup(self, frame: nat, name: Seq<char>) -> Option<ValueModel>
        decreases frame,
    {
        if frame >= self.frames.len() {
            None
        } else if self.frames[frame as int].bindings.contains_key(name) {
            Some(self.frames[frame as int].bindings[name])
        } else {
            match self.frames[frame as int].outer {
                Some(outer) if outer < frame => self.lookup(outer, name),
                _ => None,
            }
        }
    }

    /// The environment after `name` is bound to `value` in `frame` itself.
    pub open spec fn insert(self, frame: nat, name: Seq<char>, value: ValueModel) -> EnvModel {
        if frame < self.frames.len() {
            EnvModel {
                frames: self.frames.update(
                    frame as int,
                    FrameModel {
                        bindings: self.frames[frame as int].bindings.insert(name, value),
                        outer: self.frames[frame as int].outer,
                    },
                ),
            }
        } else {
            self
        }
    }

    /// The environment with one more frame, empty, whose outer link is `outer`.
    pub open spec fn child_of(self, outer: nat) -> EnvModel {
        EnvModel {
            frames: self.frames.push(FrameModel { bindings: Map::empty(), outer: Some(outer) }),
        }
    }

    /// The environment after the names are bound in `frame` to the values at
    /// the same places, from left to right.
    pub open spec fn bind_all(
        self,
        frame: nat,
        names: Seq<Seq<char>>,
        values: Seq<ValueModel>,
    ) -> EnvModel
        decreases names.len(),
    {
        if names.len() == 0 || values.len() != names.len() {
            self
        } else {
            self.bind_all(frame, names.drop_last(), values.drop_last()).insert(
                frame,
                names.last(),
                values.last(),
            )
        }
    }

    /// The outer link of frame `i` leads to an earlier frame, and every
    /// closure bound in the frame was made in a frame of this environment.
    pub open spec fn frame_sound(self, i: int) -> bool {
        &&& self.frames[i].outer matches Some(outer) ==> outer < i
        &&& forall|name: Seq<char>|
            self.frames[i].bindings.contains_key(name) ==> (
            #[trigger] self.frames[i].bindings[name]).scopes_below(self.frames.len())
    }

    /// Every frame is sound: no link and no closure leads to a frame that the
    /// environment does not hold.
    pub open spec fn sound(self) -> bool {
        forall|i: int| 0 <= i < self.frames.len() ==> #[trigger] self.frame_sound(i)
    }

    /// The environment without the frames from `mark` on.
    pub open spec fn keep(self, mark: nat) -> EnvModel {
        if mark <= self.frames.len() {
            EnvModel { frames: self.frames.take(mark as int) }
        } else {
            self
        }
    }
}

/// The native operation that the default environment binds to `name`.
pub open spec fn builtin_named(name: Seq<char>) -> Option<Builtin> {
    if name == Builtin::Def.symbol() {
        Some(Builtin::Def)
    } else if name == Builtin::Fn.symbol() {
        Some(Builtin::Fn)
    } else if name == Builtin::If.symbol() {
        Some(Builtin::If)
    } else if name == Builtin::Equals.symbol() {
        Some(Builtin::Equals)
    } else if name == Builtin::Add.symbol() {
        Some(Builtin::Add)
    } else if name == Builtin::Sub.symbol() {
        Some(Builtin::Sub)
    } else if name == Builtin::Mul.symbol() {
        Some(Builtin::Mul)
    } else if name == Builtin::Div.symbol() {
        Some(Builtin::Div)
    } else if name == Builtin::LessThan.symbol() {
        Some(Builtin::LessThan)
    } else {
        None
    }
}

/// Each native operation is found under its own name: no two share one.
pub proof fn lemma_builtin_names()
    ensures
        builtin_named(Builtin::Def.symbol()) == Some(Builtin::Def),
        builtin_named(Builtin::Fn.symbol()) == Some(Builtin::Fn),
        builtin_named(Builtin::If.symbol()) == Some(Builtin::If),
        builtin_named(Builtin::Equals.symbol()) == Some(Builtin::Equals),
        builtin_named(Builtin::Add.symbol()) == Some(Builtin::Add),
        builtin_named(Builtin::Sub.symbol()) == Some(Builtin::Sub),
        builtin_named(Builtin::Mul.symbol()) == Some(Builtin::Mul),
        builtin_named(Builtin::Div.symbol()) == Some(Builtin::Div),
        builtin_named(Builtin::LessThan.symbol()) == Some(Builtin::LessThan),
{
    reveal_strlit("def");
    reveal_strlit("fn");
    reveal_strlit("if");
    reveal_strlit("=");
    reveal_strlit("+");
    reveal_strlit("-");
    reveal_strlit("*");
    reveal_strlit("/");
    reveal_strlit("<");
    assert("def"@.len() == 3);
    assert("fn"@[0] == 'f');
    assert("if"@[0] == 'i');
    assert("="@[0] == '=');
    assert("+"@[0] == '+');
    assert("-"@[0] == '-');
    assert("*"@[0] == '*');
    assert("/"@[0] == '/');
    assert("<"@[0] == '<');
}

/// The bindings of the default environment: each native operation under its name.
pub open spec fn builtin_bindings() -> Map<Seq<char>, ValueModel> {
    Map::new(
        |name: Seq<char>| builtin_named(name) is Some,
        |name: Seq<char>| ValueModel::Func(FuncModel::BuiltIn(builtin_named(name)->0)),
    )
}

impl EnvModel {
    /// The environment of one frame, the root, which binds nothing.
    pub open spec fn empty() -> EnvModel {
        EnvModel { frames: seq![FrameModel { bindings: Map::empty(), outer: None }] }
    }

    /// The environment of one frame, the root, which binds each native
    /// operation under its name.
    pub open spec fn with_builtins() -> EnvModel {
        EnvModel { frames: seq![FrameModel { bindings: builtin_bindings(), outer: None }] }
    }
}

/// How deep applications may nest in an environment made by [`Env::new`] or
/// [`Env::default`].
pub const DEFAULT_DEPTH_LIMIT: usize = 1024;

/// A session's environments: the frames that may still be in use, the root
/// first.
///
/// A closure remembers the frame in which it was made, and a call links its
/// fresh frame to that one. When a call returns, its frame and those made
/// during the call are dropped, unless the value returned holds a closure made
/// in one of them: then they all stay, at least until a call around this one
/// returns.
#[derive(Debug)]
pub struct Env {
    frames: Vec<Frame>,
    depth_limit: usize,
}

/// The models of a run of frames, item by item.
pub open spec fn frame_views(frames: Seq<Frame>) -> Seq<FrameModel> {
    Seq::new(frames.len(), |i: int| frames[i]@)
}

impl View for Env {
    type V = EnvModel;

    closed spec fn view(&self) -> EnvModel {
        EnvModel { frames: frame_views(self.frames@) }
    }
}

impl Clone for Env {
    fn clone(&self) -> (copy: Env)
        ensures
            copy@ == self@,
            copy.limit() == self.limit(),
            self.wf() ==> copy.wf(),
    {
        let mut frames: Vec<Frame> = Vec::new();
        let mut i: usize = 0;
        while i < self.frames.len()
            invariant
                i <= self.frames@.len(),
                frames@.len() == i,
                forall|j: int| 0 <= j < i ==> frames@[j]@ == self.frames@[j]@,
                forall|j: int| 0 <= j < i && (#[trigger] self.frames@[j]).wf() ==> frames@[j].wf(),
            decreases self.frames@.len() - i,
        {
            frames.push(self.frames[i].clone());
            i += 1;
        }
        assert(frame_views(frames@) =~= frame_views(self.frames@));
        Env { frames, depth_limit: self.depth_limit }
    }
}

impl Env {
    /// There is a root frame, and every frame is well formed.
    pub closed spec fn wf(&self) -> bool {
        &&& self.frames@.len() > 0
        &&& forall|i: int| 0 <= i < self.frames@.len() ==> (#[trigger] self.frames@[i]).wf()
    }

    /// A well-formed environment has a root frame.
    pub proof fn lemma_has_root(&self)
        requires
            self.wf(),
        ensures
            self@.frames.len() > 0,
    {
    }

    /// How deep applications may nest.
    pub closed spec fn limit(&self) -> nat {
        self.depth_limit as nat
    }

    /// An environment of one frame, the root, which binds nothing.
    pub fn new() -> (env: Env)
        ensures
            env.wf(),
            env.limit() == DEFAULT_DEPTH_LIMIT,
            env@ == EnvModel::empty(),
            env@.sound(),
    {
        let mut frames: Vec<Frame> = Vec::new();
        frames.push(Frame::new(None));
        let env = Env { frames, depth_limit: DEFAULT_DEPTH_LIMIT };
        assert(env@.frames =~= seq![FrameModel { bindings: Map::empty(), outer: None }]);
        assert(env@.frame_sound(0));
        env
    }

    /// An environment of one frame, the root, which binds each native
    /// operation under its name.
    pub fn default() -> (env: Env)
        ensures
            env.wf(),
            env.limit() == DEFAULT_DEPTH_LIMIT,
            env@ == EnvModel::with_builtins(),
            env@.sound(),
    {
        let mut env = Env::new();
        env.install(Builtin::Def);
        env.install(Builtin::Fn);
        env.install(Builtin::If);
        env.install(Builtin::Equals);
        env.install(Builtin::Add);
        env.install(Builtin::Sub);
        env.install(Builtin::Mul);
        env.install(Builtin::Div);
        env.install(Builtin::LessThan);
        proof {
            lemma_builtin_names();
            assert(env@.frames.len() == 1);
            assert(env@.frames[0].bindings =~= builtin_bindings());
            assert(env@.frames =~= seq![FrameModel { bindings: builtin_bindings(), outer: None }]);
            assert(env@.frame_sound(0));
        }
        env
    }

    /// Binds a native operation under its name in the root frame.
    fn install(&mut self, op: Builtin)
        requires
            old(self).wf(),
        ensures
            final(self).wf(),
            final(self).limit() == old(self).limit(),
            final(self)@ == old(self)@.insert(
                0,
                op.symbol(),
                ValueModel::Func(FuncModel::BuiltIn(op)),
            ),
    {
        self.insert(0, String::from_str(op.name()), Value::Func(Func::BuiltIn(op)));
    }

    /// The same environment with another depth limit.
    pub fn with_depth_limit(self, limit: usize) -> (env: Env)
        requires
            self.wf(),
        ensures
            env.wf(),
            env.limit() == limit,
            env@ == self@,
    {
        Env { frames: self.frames, depth_limit: limit }
    }

    /// How deep applications may nest.
    pub fn depth_limit(&self) -> (limit: usize)
        ensures
            limit == self.limit(),
    {
        self.depth_limit
    }

    /// The number of frames.
    pub fn frame_count(&self) -> (count: usize)
        ensures
            count == self@.frames.len(),
    {
        self.frames.len()
    }

    /// Binds `key` to `value` in `frame` itself, in place of what it was bound
    /// to there. Outer frames are not touched. Without such a frame nothing
    /// changes.
    pub fn insert(&mut self, frame: usize, key: Symbol, value: Value)
        requires
            old(self).wf(),
        ensures
            final(self).wf(),
            final(self).limit() == old(self).limit(),
            final(self)@ == old(self)@.insert(frame as nat, key@, value@),
    {
        if frame < self.frames.len() {
            let ghost before = self.frames@;
            self.frames[frame].set(key, value);
            assert(self.frames@.len() == before.len());
            assert(self@.frames =~= old(self)@.insert(frame as nat, key@, value@).frames);
        }
    }

    /// The value that `key` resolves to from `frame`: that of the innermost
    /// frame of the chain that binds it.
    pub fn get(&self, frame: usize, key: &Symbol) -> (found: Option<Value>)
        requires
            self.wf(),
        ensures
            match found {
                Some(value) => self@.lookup(frame as nat, key@) == Some(value@),
                None => self@.lookup(frame as nat, key@) is None,
            },
    {
        let mut at: usize = frame;
        loop
            invariant
                self.wf(),
                self@.lookup(at as nat, key@) == self@.lookup(frame as nat, key@),
            decreases at,
        {
            if at >= self.frames.len() {
                return None;
            }
            match self.frames[at].get(key) {
                Some(value) => {
                    return Some(value.clone());
                },
                None => {
                    match self.frames[at].outer() {
                        Some(outer) => {
                            if outer < at {
                                at = outer;
                            } else {
                                return None;
                            }
                        },
                        None => {
                            return None;
                        },
                    }
                },
            }
        }
    }

    /// Binds the names in `frame` to the values at the same places, from left
    /// to right. Where there are not as many values as names, nothing changes.
    pub fn bind_all(&mut self, frame: usize, names: &Vec<Symbol>, values: &Vec<Value>)
        requires
            old(self).wf(),
        ensures
            final(self).wf(),
            final(self).limit() == old(self).limit(),
            final(self)@ == old(self)@.bind_all(
                frame as nat,
                symbol_views(names@),
                value_views(values@),
            ),
    {
        let ghost limit = self.limit();
        if names.len() != values.len() {
            return;
        }
        let mut i: usize = 0;
        assert(symbol_views(names@).take(0) =~= Seq::<Seq<char>>::empty());
        while i < names.len()
            invariant
                self.wf(),
                self.limit() == limit,
                i <= names@.len(),
                names@.len() == values@.len(),
                self@ == old(self)@.bind_all(
                    frame as nat,
                    symbol_views(names@).take(i as int),
                    value_views(values@).take(i as int),
                ),
            decreases names@.len() - i,
        {
            let ghost shown = symbol_views(names@).take(i + 1);
            let ghost bound = value_views(values@).take(i + 1);
            assert(shown.drop_last() =~= symbol_views(names@).take(i as int));
            assert(bound.drop_last() =~= value_views(values@).take(i as int));
            self.insert(frame, names[i].clone(), values[i].clone());
            i += 1;
        }
        assert(symbol_views(names@).take(i as int) =~= symbol_views(names@));
        assert(value_views(values@).take(i as int) =~= value_views(values@));
    }

    /// Adds an empty frame whose outer link is `outer`, and returns its place.
    pub fn child_of(&mut self, outer: usize) -> (child: usize)
        requires
            old(self).wf(),
        ensures
            final(self).wf(),
            final(self).limit() == old(self).limit(),
            child == old(self)@.frames.len(),
            final(self)@ == old(self)@.child_of(outer as nat),
    {
        let child = self.frames.len();
        self.frames.push(Frame::new(Some(outer)));
        assert(self@.frames =~= old(self)@.child_of(outer as nat).frames);
        child
    }

    /// Drops the frames from `mark` on. The root stays.
    pub fn discard(&mut self, mark: usize)
        requires
            old(self).wf(),
            mark > 0,
        ensures
            final(self).wf(),
            final(self).limit() == old(self).limit(),
            final(self)@ == old(self)@.keep(mark as nat),
    {
        if mark <= self.frames.len() {
            self.frames.truncate(mark);
            assert(self@.frames =~= old(self)@.keep(mark as nat).frames);
        }
    }
}

} // verus!
