//! The control state of a loaded model.
//!
//! The engine does the work: it loads the model, loads methods and runs
//! them. This module decides. It is told what the engine answered, keeps
//! track of what is loaded and what is running, and says what each call
//! gives its caller.
//!
//! A model is unloaded or loaded. Once it is loaded, each of its methods is
//! listed, then ready, and while it runs, executing.

use crate::eterror::ETError;
use crate::evalue::{decode_spec, encode_spec, EValue, EValueView};
use crate::host::{HostEValue, HostMethodMeta};
use crate::method_meta::{entries_shown, MethodMeta, MethodMetaView};
use vstd::prelude::*;

verus! {

/// How far a method of a loaded model has come: the model lists it, it is
/// loaded and can run, or it is running.
#[derive(Debug, Copy, Clone, PartialEq, Eq, Structural)]
pub enum Stage {
    Listed,
    Ready,
    Executing,
}

/// One method of a loaded model.
#[derive(Debug)]
struct Entry {
    meta: MethodMeta,
    stage: Stage,
}

/// The control state of one model.
#[derive(Debug)]
pub struct Module {
    path: String,
    loaded: bool,
    methods: Vec<Entry>,
}

/// The model of one method of a model: its metadata and its stage.
pub struct MethodState {
    pub meta: MethodMetaView,
    pub stage: Stage,
}

/// The model of the control state: where the model comes from, whether it is
/// loaded, and its methods in the order in which the engine lists them.
pub struct ModuleView {
    pub path: Seq<char>,
    pub loaded: bool,
    pub methods: Seq<MethodState>,
}

/// The index of the first of `names` that equals `name`, the number of names
/// where none does.
pub open spec fn first_index(names: Seq<Seq<char>>, name: Seq<char>) -> int
    decreases names.len(),
{
    if names.len() == 0 {
        0
    } else if names[0] == name {
        0
    } else {
        1 + first_index(names.drop_first(), name)
    }
}

/// The methods of a model that was just loaded: all listed.
pub open spec fn listed(metas: Seq<MethodMetaView>) -> Seq<MethodState> {
    Seq::new(metas.len(), |i: int| MethodState { meta: metas[i], stage: Stage::Listed })
}

/// The models of a sequence of metadata.
pub open spec fn meta_views(metas: Seq<MethodMeta>) -> Seq<MethodMetaView> {
    Seq::new(metas.len(), |i: int| metas[i]@)
}

/// The models of a sequence of values.
pub open spec fn value_views(values: Seq<EValue>) -> Seq<EValueView> {
    Seq::new(values.len(), |i: int| values[i]@)
}

/// `host` holds the values of `values` as the host holds them, in order.
pub open spec fn shown(host: Seq<HostEValue>, values: Seq<EValueView>) -> bool {
    &&& host.len() == values.len()
    &&& forall|i: int| 0 <= i < values.len() ==> (#[trigger] host[i])@ == encode_spec(values[i])
}

/// What a run gives that declares `count` outputs, where the engine produced
/// `produced`: the engine's values in order, cut or filled up with values
/// without content to exactly `count`.
pub open spec fn outputs_of(count: nat, produced: Seq<EValueView>) -> Seq<EValueView> {
    Seq::new(
        count,
        |i: int|
            if i < produced.len() {
                produced[i]
            } else {
                EValueView::Null
            },
    )
}

impl ModuleView {
    /// An unloaded model has no methods.
    pub open spec fn wf(self) -> bool {
        !self.loaded ==> self.methods.len() == 0
    }

    /// The names of the methods, in order.
    pub open spec fn names(self) -> Seq<Seq<char>> {
        Seq::new(self.methods.len(), |i: int| self.methods[i].meta.name)
    }

    /// The index of the first method named `name`, the number of methods
    /// where there is none.
    pub open spec fn index_of(self, name: Seq<char>) -> int {
        first_index(self.names(), name)
    }

    /// Whether the model has a method named `name`.
    pub open spec fn has(self, name: Seq<char>) -> bool {
        self.index_of(name) < self.methods.len()
    }

    /// Whether the method named `name` is at `stage`.
    pub open spec fn at(self, name: Seq<char>, stage: Stage) -> bool {
        self.has(name) && self.methods[self.index_of(name)].stage == stage
    }

    /// The state with the method named `name` moved to `stage`.
    pub open spec fn moved(self, name: Seq<char>, stage: Stage) -> ModuleView {
        let i = self.index_of(name);
        ModuleView {
            methods: self.methods.update(i, MethodState { stage, ..self.methods[i] }),
            ..self
        }
    }

    /// The state after the engine answered a request to load the model with
    /// `code` and, where it succeeded, listed `metas`: a failure changes
    /// nothing, and so does a success where the model was loaded already.
    pub open spec fn after_load(self, code: int, metas: Seq<MethodMetaView>) -> ModuleView {
        if code == 0 && !self.loaded {
            ModuleView { loaded: true, methods: listed(metas), ..self }
        } else {
            self
        }
    }

    /// The state after the engine answered a request to load the method
    /// named `name` with `code`: a listed method becomes ready on success,
    /// and nothing else changes.
    pub open spec fn after_load_method(self, name: Seq<char>, code: int) -> ModuleView {
        if self.loaded && code == 0 && self.at(name, Stage::Listed) {
            self.moved(name, Stage::Ready)
        } else {
            self
        }
    }
}

/// The first index is the one at which the name stands and before which it
/// does not.
pub proof fn lemma_first_index(names: Seq<Seq<char>>, name: Seq<char>, i: int)
    requires
        0 <= i <= names.len(),
        forall|j: int| 0 <= j < i ==> names[j] != name,
        i == names.len() || names[i] == name,
    ensures
        first_index(names, name) == i,
    decreases names.len(),
{
    if i > 0 {
        let rest = names.drop_first();
        assert(names[0] != name);
        assert forall|j: int| 0 <= j < i - 1 implies rest[j] != name by {
            assert(rest[j] == names[j + 1]);
        }
        if i < names.len() {
            assert(rest[i - 1] == names[i]);
        }
        lemma_first_index(rest, name, i - 1);
    }
}

/// Exactly as many values as `count`: those of `produced` in order, cut or
/// filled up with values without content.
pub fn fill_outputs(count: usize, produced: Vec<EValue>) -> (outputs: Vec<EValue>)
    ensures
        value_views(outputs@) == outputs_of(count as nat, value_views(produced@)),
{
    let mut outputs = produced;
    let ghost given = value_views(produced@);
    outputs.truncate(count);
    while outputs.len() < count
        invariant
            outputs@.len() <= count,
            given.len() <= outputs@.len() || outputs@.len() == count,
            forall|i: int|
                0 <= i < outputs@.len() ==> (#[trigger] outputs@[i])@ == outputs_of(
                    count as nat,
                    given,
                )[i],
        decreases count - outputs.len(),
    {
        outputs.push(EValue::Null);
    }
    proof {
        assert(value_views(outputs@) =~= outputs_of(count as nat, given));
    }
    outputs
}

impl View for Module {
    type V = ModuleView;

    closed spec fn view(&self) -> ModuleView {
        ModuleView {
            path: self.path@,
            loaded: self.loaded,
            methods: Seq::new(
                self.methods@.len(),
                |i: int| MethodState { meta: self.methods@[i].meta@, stage: self.methods@[i].stage },
            ),
        }
    }
}

impl Module {
    #[verifier::type_invariant]
    spec fn valid(self) -> bool {
        self@.wf()
    }

    /// The state of the model at `path`, not yet loaded.
    pub fn new(path: String) -> (m: Module)
        ensures
            m@ == (ModuleView { path: path@, loaded: false, methods: Seq::empty() }),
    {
        let m = Module { path, loaded: false, methods: Vec::new() };
        proof {
            assert(m@.methods =~= Seq::empty());
        }
        m
    }

    /// The state is always well formed.
    pub fn check(&self)
        ensures
            self@.wf(),
    {
        proof {
            use_type_invariant(self);
        }
    }

    /// Where the model comes from.
    pub fn path(&self) -> (path: &String)
        ensures
            path@ == self@.path,
    {
        &self.path
    }

    /// Whether the model is loaded.
    pub fn is_loaded(&self) -> (yes: bool)
        ensures
            yes == self@.loaded,
    {
        self.loaded
    }

    /// The index of the first method named `name`, the number of methods
    /// where there is none.
    fn find(&self, name: &String) -> (i: usize)
        ensures
            i == self@.index_of(name@),
            i <= self@.methods.len(),
            i == self.methods@.len() || self.methods@[i as int].meta@.name == name@,
    {
        let ghost names = self@.names();
        let mut i: usize = 0;
        while i < self.methods.len()
            invariant
                i <= self.methods@.len(),
                names == self@.names(),
                names.len() == self.methods@.len(),
                forall|j: int| 0 <= j < i ==> names[j] != name@,
            decreases self.methods.len() - i,
        {
            if self.methods[i].meta.is_named(name) {
                proof {
                    assert(names[i as int] == name@);
                    lemma_first_index(names, name@, i as int);
                }
                return i;
            }
            proof {
                assert(names[i as int] == self.methods@[i as int].meta@.name);
            }
            i += 1;
        }
        proof {
            lemma_first_index(names, name@, i as int);
        }
        i
    }

    /// Moves the method at index `i`, the first that is named `name`, to
    /// `stage`.
    fn set_stage(&mut self, i: usize, name: Ghost<Seq<char>>, stage: Stage)
        requires
            i < old(self)@.methods.len(),
            i == old(self)@.index_of(name@),
        ensures
            final(self)@ == old(self)@.moved(name@, stage),
    {
        proof {
            use_type_invariant(&*self);
        }
        let ghost before = self@;
        self.methods[i].stage = stage;
        proof {
            assert(self@.methods =~= before.moved(name@, stage).methods);
        }
    }

    /// Takes note of the engine's answer to a request to load the model: its
    /// result code and, where it succeeded, the metadata of the methods that
    /// the model lists. A success makes the model loaded with those methods,
    /// all listed; on a model that is loaded already it changes nothing. A
    /// failure changes nothing and is handed on as the error with that code.
    pub fn load(&mut self, code: i32, methods: Vec<MethodMeta>) -> (r: Result<(), ETError>)
        requires
            ETError::is_code(code as int),
        ensures
            final(self)@ == old(self)@.after_load(code as int, meta_views(methods@)),
            code == 0 ==> r is Ok,
            code != 0 ==> (r is Err && r->Err_0.code_of() == code),
    {
        proof {
            use_type_invariant(&*self);
        }
        if code != 0 {
            return match ETError::from_code(code) {
                Some(e) => Err(e),
                None => vstd::pervasive::unreached(),
            };
        }
        if self.loaded {
            return Ok(());
        }
        let ghost metas = meta_views(methods@);
        let mut methods = methods;
        let n = methods.len();
        // A vector gives up its items from the back only, so the metadata are
        // turned round on the way to a second vector and turned back on the way
        // to the entries.
        let mut turned: Vec<MethodMeta> = Vec::new();
        while methods.len() > 0
            invariant
                methods@.len() <= n,
                turned@.len() == n - methods@.len(),
                metas.len() == n,
                forall|i: int| 0 <= i < methods@.len() ==> (#[trigger] methods@[i])@ == metas[i],
                forall|i: int|
                    0 <= i < turned@.len() ==> (#[trigger] turned@[i])@ == metas[n - 1 - i],
            decreases methods.len(),
        {
            let ghost last = methods@.len() - 1;
            match methods.pop() {
                Some(meta) => {
                    assert(meta@ == metas[last]);
                    turned.push(meta);
                },
                None => {},
            }
        }
        let mut entries: Vec<Entry> = Vec::new();
        while turned.len() > 0
            invariant
                turned@.len() <= n,
                entries@.len() == n - turned@.len(),
                metas.len() == n,
                forall|i: int|
                    0 <= i < turned@.len() ==> (#[trigger] turned@[i])@ == metas[n - 1 - i],
                forall|i: int|
                    0 <= i < entries@.len() ==> (#[trigger] entries@[i]).meta@ == metas[i]
                        && entries@[i].stage == Stage::Listed,
            decreases turned.len(),
        {
            let ghost last = turned@.len() - 1;
            match turned.pop() {
                Some(meta) => {
                    assert(meta@ == metas[n - 1 - last]);
                    entries.push(Entry { meta, stage: Stage::Listed });
                },
                None => {},
            }
        }
        self.loaded = true;
        self.methods = entries;
        proof {
            assert(self@.methods =~= listed(metas));
        }
        Ok(())
    }

    /// Takes note of the engine's answer to a request to load the method
    /// named `name`. Refused with `InvalidState` where the model is not
    /// loaded. On success a listed method becomes ready; one that is ready
    /// or running stays as it is. A failure changes nothing and is handed on
    /// as the error with that code.
    pub fn load_method(&mut self, name: String, code: i32) -> (r: Result<(), ETError>)
        requires
            ETError::is_code(code as int),
        ensures
            final(self)@ == old(self)@.after_load_method(name@, code as int),
            !old(self)@.loaded ==> r == Err::<(), ETError>(ETError::InvalidState),
            old(self)@.loaded && code == 0 ==> r is Ok,
            old(self)@.loaded && code != 0 ==> (r is Err && r->Err_0.code_of() == code),
    {
        if !self.loaded {
            return Err(ETError::InvalidState);
        }
        if code != 0 {
            return match ETError::from_code(code) {
                Some(e) => Err(e),
                None => vstd::pervasive::unreached(),
            };
        }
        let i = self.find(&name);
        if i < self.methods.len() {
            match self.methods[i].stage {
                Stage::Listed => {
                    self.set_stage(i, Ghost(name@), Stage::Ready);
                },
                _ => {},
            }
        }
        Ok(())
    }

    /// Whether the model has a method named `method_name`.
    pub fn has_method(&self, method_name: String) -> (yes: bool)
        ensures
            yes == self@.has(method_name@),
    {
        self.find(&method_name) < self.methods.len()
    }

    /// The stage of the method named `method_name`, `None` where the model
    /// has no such method.
    pub fn stage(&self, method_name: String) -> (stage: Option<Stage>)
        ensures
            match stage {
                Some(s) => self@.at(method_name@, s),
                None => !self@.has(method_name@),
            },
    {
        let i = self.find(&method_name);
        if i < self.methods.len() {
            Some(self.methods[i].stage)
        } else {
            None
        }
    }

    /// The metadata of the method named `method_name`. Refused with
    /// `InvalidArgument` where the model has no such method.
    pub fn method_meta(&self, method_name: String) -> (r: Result<&MethodMeta, ETError>)
        ensures
            match r {
                Ok(meta) => self@.has(method_name@) && meta@ == self@.methods[self@.index_of(
                    method_name@,
                )].meta,
                Err(e) => !self@.has(method_name@) && e == ETError::InvalidArgument,
            },
    {
        let i = self.find(&method_name);
        if i < self.methods.len() {
            Ok(&self.methods[i].meta)
        } else {
            Err(ETError::InvalidArgument)
        }
    }

    /// The names of all methods of the model, in the engine's order, loaded
    /// or not.
    pub fn method_names(&self) -> (names: Vec<String>)
        ensures
            names@.len() == self@.methods.len(),
            forall|i: int| 0 <= i < names@.len() ==> (#[trigger] names@[i])@ == self@.names()[i],
    {
        let mut names: Vec<String> = Vec::new();
        let mut i: usize = 0;
        while i < self.methods.len()
            invariant
                i <= self.methods@.len(),
                names@.len() == i,
                forall|j: int| 0 <= j < i ==> (#[trigger] names@[j])@ == self@.names()[j],
            decreases self.methods.len() - i,
        {
            names.push(self.methods[i].meta.name());
            i += 1;
        }
        names
    }

    /// Marks the method named `method_name` as running, before the engine is
    /// asked to run it. Refused with `InvalidState`, and nothing changed,
    /// unless the method is ready: a method that is not loaded cannot run,
    /// and one that is running cannot run a second time at once.
    pub fn begin_execute(&mut self, method_name: String) -> (r: Result<(), ETError>)
        ensures
            old(self)@.at(method_name@, Stage::Ready) ==> r is Ok && final(self)@ == old(
                self,
            )@.moved(method_name@, Stage::Executing),
            !old(self)@.at(method_name@, Stage::Ready) ==> r == Err::<(), ETError>(
                ETError::InvalidState,
            ) && final(self)@ == old(self)@,
    {
        let i = self.find(&method_name);
        if i < self.methods.len() {
            match self.methods[i].stage {
                Stage::Ready => {
                    self.set_stage(i, Ghost(method_name@), Stage::Executing);
                    return Ok(());
                },
                _ => {},
            }
        }
        Err(ETError::InvalidState)
    }

    /// Takes note of the engine's answer to a request to run the method
    /// named `method_name`: its result code and the values that it produced.
    /// Refused with `InvalidState`, and nothing changed, unless the method
    /// is running. Otherwise the method is ready again. On success the call
    /// gives exactly as many values as the method declares outputs: the
    /// engine's values in order, cut or filled up with values without
    /// content. On failure it gives the error with that code, and no value.
    pub fn execute(&mut self, method_name: String, code: i32, produced: Vec<EValue>) -> (r: Result<
        Vec<EValue>,
        ETError,
    >)
        requires
            ETError::is_code(code as int),
        ensures
            !old(self)@.at(method_name@, Stage::Executing) ==> r is Err && r->Err_0
                == ETError::InvalidState && final(self)@ == old(self)@,
            old(self)@.at(method_name@, Stage::Executing) ==> final(self)@ == old(self)@.moved(
                method_name@,
                Stage::Ready,
            ),
            old(self)@.at(method_name@, Stage::Executing) && code != 0 ==> (r is Err
                && r->Err_0.code_of() == code),
            old(self)@.at(method_name@, Stage::Executing) && code == 0 ==> (r is Ok
                && value_views(r->Ok_0@) == outputs_of(
                old(self)@.methods[old(self)@.index_of(method_name@)].meta.outputs.len(),
                value_views(produced@),
            )),
    {
        let i = self.find(&method_name);
        if i >= self.methods.len() {
            return Err(ETError::InvalidState);
        }
        match self.methods[i].stage {
            Stage::Executing => {},
            _ => {
                return Err(ETError::InvalidState);
            },
        }
        let count = self.methods[i].meta.num_outputs();
        self.set_stage(i, Ghost(method_name@), Stage::Ready);
        if code != 0 {
            return match ETError::from_code(code) {
                Some(e) => Err(e),
                None => vstd::pervasive::unreached(),
            };
        }
        Ok(fill_outputs(count, produced))
    }
}

/// The state of the model at `path` after the engine answered the request to
/// load it with `code` and, where it succeeded, listed `methods`. A failure
/// gives no state but the error with that code.
pub fn load(path: String, code: i32, methods: Vec<MethodMeta>) -> (r: Result<Module, ETError>)
    requires
        ETError::is_code(code as int),
    ensures
        code == 0 ==> (r is Ok && r->Ok_0@ == (ModuleView {
            path: path@,
            loaded: true,
            methods: listed(meta_views(methods@)),
        })),
        code != 0 ==> (r is Err && r->Err_0.code_of() == code),
{
    let mut module = Module::new(path);
    match module.load(code, methods) {
        Ok(()) => Ok(module),
        Err(e) => Err(e),
    }
}

/// Takes note, in the state `module`, of the engine's answer to a request to
/// load the method named `name`.
pub fn load_method(module: &mut Module, name: String, code: i32) -> (r: Result<(), ETError>)
    requires
        ETError::is_code(code as int),
    ensures
        final(module)@ == old(module)@.after_load_method(name@, code as int),
        !old(module)@.loaded ==> r == Err::<(), ETError>(ETError::InvalidState),
        old(module)@.loaded && code == 0 ==> r is Ok,
        old(module)@.loaded && code != 0 ==> (r is Err && r->Err_0.code_of() == code),
{
    module.load_method(name, code)
}

/// The names of all methods of the model.
pub fn method_names(module: &Module) -> (names: Vec<String>)
    ensures
        names@.len() == module@.methods.len(),
        forall|i: int| 0 <= i < names@.len() ==> (#[trigger] names@[i])@ == module@.names()[i],
{
    module.method_names()
}

/// Takes note, in the state `module`, of the engine's answer to a request to
/// run the method named `method_name`, and gives what the host receives: on
/// success exactly as many values as the method declares outputs, each as
/// the host holds it; on failure the error, and no value.
pub fn execute(module: &mut Module, method_name: String, code: i32, produced: Vec<EValue>) -> (r:
    Result<Vec<HostEValue>, ETError>)
    requires
        ETError::is_code(code as int),
    ensures
        !old(module)@.at(method_name@, Stage::Executing) ==> r is Err && r->Err_0
            == ETError::InvalidState && final(module)@ == old(module)@,
        old(module)@.at(method_name@, Stage::Executing) ==> final(module)@ == old(module)@.moved(
            method_name@,
            Stage::Ready,
        ),
        old(module)@.at(method_name@, Stage::Executing) && code != 0 ==> (r is Err
            && r->Err_0.code_of() == code),
        old(module)@.at(method_name@, Stage::Executing) && code == 0 ==> (r is Ok && shown(
            r->Ok_0@,
            outputs_of(
                old(module)@.methods[old(module)@.index_of(method_name@)].meta.outputs.len(),
                value_views(produced@),
            ),
        )),
{
    match module.execute(method_name, code, produced) {
        Ok(outputs) => Ok(encode_outputs(&outputs)),
        Err(e) => Err(e),
    }
}

/// What the host sees of the metadata of the method named `method_name`.
/// Refused with `InvalidArgument` where the model has no such method.
pub fn get_method_meta(module: &Module, method_name: String) -> (r: Result<HostMethodMeta, ETError>)
    ensures
        match r {
            Ok(host) => {
                let meta = module@.methods[module@.index_of(method_name@)].meta;
                &&& module@.has(method_name@)
                &&& host.name@ == meta.name
                &&& entries_shown(host.inputs@, meta.inputs)
                &&& entries_shown(host.outputs@, meta.outputs)
            },
            Err(e) => !module@.has(method_name@) && e == ETError::InvalidArgument,
        },
{
    match module.method_meta(method_name) {
        Ok(meta) => Ok(meta.to_js()),
        Err(e) => Err(e),
    }
}

/// The values that the host holds as `inputs`, in order. Where one of them
/// is refused, the first refusal is the result, and no value.
pub fn decode_inputs(inputs: &Vec<HostEValue>) -> (r: Result<Vec<EValue>, ETError>)
    ensures
        match r {
            Ok(values) => values@.len() == inputs@.len() && forall|i: int|
                0 <= i < inputs@.len() ==> decode_spec(inputs@[i]@) == Ok::<EValueView, ETError>(
                    (#[trigger] values@[i])@,
                ),
            Err(e) => exists|i: int|
                0 <= i < inputs@.len() && decode_spec(#[trigger] inputs@[i]@) == Err::<
                    EValueView,
                    ETError,
                >(e) && forall|j: int| 0 <= j < i ==> decode_spec(#[trigger] inputs@[j]@) is Ok,
        },
{
    let mut values: Vec<EValue> = Vec::new();
    let mut i: usize = 0;
    while i < inputs.len()
        invariant
            i <= inputs@.len(),
            values@.len() == i,
            forall|j: int|
                0 <= j < i ==> decode_spec(inputs@[j]@) == Ok::<EValueView, ETError>(
                    (#[trigger] values@[j])@,
                ),
        decreases inputs.len() - i,
    {
        match EValue::from_js(&inputs[i]) {
            Ok(value) => {
                values.push(value);
            },
            Err(e) => {
                proof {
                    assert(decode_spec(inputs@[i as int]@) == Err::<EValueView, ETError>(e));
                    assert forall|j: int| 0 <= j < i implies decode_spec(
                        #[trigger] inputs@[j]@,
                    ) is Ok by {
                        assert(decode_spec(inputs@[j]@) == Ok::<EValueView, ETError>(values@[j]@));
                    }
                }
                return Err(e);
            },
        }
        i += 1;
    }
    Ok(values)
}

/// The values of `outputs` as the host holds them, in order.
pub fn encode_outputs(outputs: &Vec<EValue>) -> (host: Vec<HostEValue>)
    ensures
        shown(host@, value_views(outputs@)),
{
    let mut host: Vec<HostEValue> = Vec::new();
    let mut i: usize = 0;
    while i < outputs.len()
        invariant
            i <= outputs@.len(),
            host@.len() == i,
            forall|j: int| 0 <= j < i ==> (#[trigger] host@[j])@ == encode_spec(outputs@[j]@),
        decreases outputs.len() - i,
    {
        host.push(outputs[i].to_js());
        i += 1;
    }
    host
}

} // verus!
