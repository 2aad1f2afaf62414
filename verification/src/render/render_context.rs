//! The variables of a rendering: a stack of scopes.
//!
//! A name is looked up from the innermost scope outwards; a binding is always
//! made in the innermost scope. The context also holds the facts that answer
//! the library's requests to its caller.

use vstd::prelude::*;
use crate::error::{Error, ErrorKind, Failure};
use crate::render::expression::{evaluate_expression_bytes, evaluate_text};
use crate::request::{
    facts_view, find_answer, lookup_answer, Answer, AnswerView, Fact, FactView, Request,
    RequestView,
};
use crate::text::{copy_range, text};
use crate::value::{
    clone_bytes, clone_value, entries_view, find_entry, insert_entry, lookup_entry, put_entry,
    Entries, PomlValue, ValueView,
};

verus! {

/// One layer of bindings.
#[derive(Debug)]
pub struct Scope {
    pub variables: Vec<(Vec<u8>, PomlValue)>,
}

/// The scopes of a rendering, outermost first, and the facts it may use.
#[derive(Debug)]
pub struct RenderContext {
    pub scope_layers: Vec<Scope>,
    pub facts: Vec<Fact>,
}

/// The mathematical value of a context.
pub ghost struct ContextView {
    pub scopes: Seq<Entries>,
    pub facts: Seq<FactView>,
}

/// The values of a stack of scopes.
pub open spec fn scopes_view(layers: Seq<Scope>) -> Seq<Entries> {
    Seq::new(layers.len(), |i: int| entries_view(layers[i].variables@))
}

impl View for RenderContext {
    type V = ContextView;

    open spec fn view(&self) -> ContextView {
        ContextView { scopes: scopes_view(self.scope_layers@), facts: facts_view(self.facts@) }
    }
}

/// The binding of a name in the innermost of the first `depth` scopes that
/// binds it.
pub open spec fn lookup_scopes(scopes: Seq<Entries>, name: Seq<u8>, depth: int) -> Option<ValueView>
    decreases depth,
{
    if depth <= 0 || depth > scopes.len() {
        None
    } else {
        match lookup_entry(scopes[depth - 1], name) {
            Some(v) => Some(v),
            None => lookup_scopes(scopes, name, depth - 1),
        }
    }
}

/// The scopes with `name` bound to `value` in the innermost; no scope, no
/// binding.
pub open spec fn assign(scopes: Seq<Entries>, name: Seq<u8>, value: ValueView) -> Seq<Entries> {
    if scopes.len() == 0 {
        scopes
    } else {
        scopes.update(scopes.len() - 1, insert_entry(scopes.last(), name, value))
    }
}

/// The scopes with every entry bound in the innermost, in order from index
/// `i` on.
pub open spec fn assign_all(scopes: Seq<Entries>, entries: Entries, i: int) -> Seq<Entries>
    decreases entries.len() - i,
{
    if !(0 <= i < entries.len()) {
        scopes
    } else {
        assign_all(assign(scopes, entries[i].0, entries[i].1), entries, i + 1)
    }
}

impl ContextView {
    /// The value that a name stands for, if any scope binds it.
    pub open spec fn get(self, name: Seq<u8>) -> Option<ValueView> {
        lookup_scopes(self.scopes, name, self.scopes.len() as int)
    }

    /// The context after a binding in the innermost scope.
    pub open spec fn set(self, name: Seq<u8>, value: ValueView) -> ContextView {
        ContextView { scopes: assign(self.scopes, name, value), ..self }
    }

    /// The context with a new, empty innermost scope.
    pub open spec fn push(self) -> ContextView {
        ContextView { scopes: self.scopes.push(Seq::empty()), ..self }
    }

    /// The context without its innermost scope.
    pub open spec fn pop(self) -> ContextView {
        if self.scopes.len() == 0 {
            self
        } else {
            ContextView { scopes: self.scopes.drop_last(), ..self }
        }
    }

    /// The content of a file: the text that answers the request to read it.
    /// A request without an answer is pending; an answer that is no text
    /// is rejected.
    pub open spec fn file(self, name: Seq<u8>) -> Result<Seq<u8>, Failure> {
        match lookup_answer(self.facts, RequestView::ReadFile(name)) {
            Some(AnswerView::Text(content)) => Ok(content),
            Some(_) => Err(Failure::Rejected(ErrorKind::RendererError)),
            None => Err(Failure::Pending(RequestView::ReadFile(name))),
        }
    }
}

impl Clone for Scope {
    fn clone(&self) -> (r: Self)
        ensures
            entries_view(r.variables@) == entries_view(self.variables@),
    {
        let mut out: Vec<(Vec<u8>, PomlValue)> = Vec::new();
        let mut i: usize = 0;
        while i < self.variables.len()
            invariant
                i <= self.variables.len(),
                out@.len() == i,
                forall|k: int|
                    0 <= k < i ==> (#[trigger] out@[k]).0@ == self.variables@[k].0@ && out@[k].1@
                        == self.variables@[k].1@,
            decreases self.variables.len() - i,
        {
            out.push((clone_bytes(&self.variables[i].0), clone_value(&self.variables[i].1)));
            i = i + 1;
        }
        proof {
            assert(entries_view(out@) =~= entries_view(self.variables@));
        }
        Scope { variables: out }
    }
}

impl Clone for Request {
    fn clone(&self) -> (r: Self)
        ensures
            r@ == self@,
    {
        match self {
            Request::ReadFile(name) => Request::ReadFile(clone_bytes(name)),
            Request::ParseFloat(text) => Request::ParseFloat(clone_bytes(text)),
            Request::IntToFloat(i) => Request::IntToFloat(*i),
            Request::FloatAdd(a, b) => Request::FloatAdd(*a, *b),
            Request::FloatSub(a, b) => Request::FloatSub(*a, *b),
            Request::FloatMul(a, b) => Request::FloatMul(*a, *b),
            Request::FloatDiv(a, b) => Request::FloatDiv(*a, *b),
            Request::FloatText(a) => Request::FloatText(*a),
            Request::FloatJsonText(a) => Request::FloatJsonText(*a),
            Request::DebugText(v) => Request::DebugText(clone_value(v)),
        }
    }
}

impl Clone for Answer {
    fn clone(&self) -> (r: Self)
        ensures
            r@ == self@,
    {
        match self {
            Answer::Float(bits) => Answer::Float(*bits),
            Answer::Text(text) => Answer::Text(clone_bytes(text)),
            Answer::Nothing => Answer::Nothing,
        }
    }
}

impl Clone for RenderContext {
    fn clone(&self) -> (r: Self)
        ensures
            r@ == self@,
    {
        let mut layers: Vec<Scope> = Vec::new();
        let mut i: usize = 0;
        while i < self.scope_layers.len()
            invariant
                i <= self.scope_layers.len(),
                layers@.len() == i,
                forall|k: int|
                    0 <= k < i ==> entries_view((#[trigger] layers@[k]).variables@) == entries_view(
                        self.scope_layers@[k].variables@,
                    ),
            decreases self.scope_layers.len() - i,
        {
            layers.push(self.scope_layers[i].clone());
            i = i + 1;
        }
        let mut facts: Vec<Fact> = Vec::new();
        let mut j: usize = 0;
        while j < self.facts.len()
            invariant
                j <= self.facts.len(),
                facts@.len() == j,
                forall|k: int| 0 <= k < j ==> (#[trigger] facts@[k])@ == self.facts@[k]@,
            decreases self.facts.len() - j,
        {
            facts.push(
                Fact { request: self.facts[j].request.clone(), answer: self.facts[j].answer.clone() },
            );
            j = j + 1;
        }
        proof {
            assert(scopes_view(layers@) =~= scopes_view(self.scope_layers@));
            assert(facts_view(facts@) =~= facts_view(self.facts@));
        }
        RenderContext { scope_layers: layers, facts }
    }
}

impl RenderContext {
    /// A context with one scope that holds the given bindings; where a name
    /// occurs twice, its last value stands.
    pub fn from_variables(variables: Vec<(Vec<u8>, PomlValue)>) -> (r: RenderContext)
        ensures
            r@.scopes == assign_all(seq![Seq::empty()], entries_view(variables@), 0),
            r@.scopes.len() == 1,
            r@.facts == Seq::<FactView>::empty(),
    {
        let mut context = RenderContext {
            scope_layers: vec![Scope { variables: Vec::new() }],
            facts: Vec::new(),
        };
        let ghost all = entries_view(variables@);
        proof {
            assert(entries_view(context.scope_layers@[0].variables@) =~= Seq::empty());
            assert(context@.scopes =~= seq![Seq::empty()]);
            assert(context@.facts =~= Seq::<FactView>::empty());
        }
        let mut i: usize = 0;
        while i < variables.len()
            invariant
                i <= variables.len(),
                all == entries_view(variables@),
                context@.scopes.len() == 1,
                context@.facts == Seq::<FactView>::empty(),
                assign_all(seq![Seq::empty()], all, 0) == assign_all(context@.scopes, all, i as int),
            decreases variables.len() - i,
        {
            context.bind(variables[i].0.as_slice(), clone_value(&variables[i].1));
            i = i + 1;
        }
        context
    }

    /// The value that a name stands for: its binding in the innermost scope
    /// that binds it.
    pub fn get_value(&self, name: &str) -> (r: Option<&PomlValue>)
        ensures
            match r {
                Some(v) => self@.get(text(name)) == Some(v@),
                None => self@.get(text(name)) is None,
            },
    {
        self.lookup(name.as_bytes())
    }

    /// Binds a name in the innermost scope. Without a scope nothing happens.
    pub fn set_value(&mut self, name: &str, value: PomlValue)
        ensures
            final(self)@ == old(self)@.set(text(name), value@),
    {
        self.bind(name.as_bytes(), value)
    }

    /// Evaluates an expression in this context.
    pub fn evaluate(&self, expression: &str) -> (r: Result<PomlValue, Error>)
        ensures
            match r {
                Ok(v) => evaluate_text(text(expression), self@) == Ok::<ValueView, Failure>(v@),
                Err(e) => evaluate_text(text(expression), self@) == Err::<ValueView, Failure>(
                    e.failure(),
                ),
            },
    {
        self.evaluate_bytes(expression.as_bytes())
    }

    /// The content of a file; see `ContextView::file`.
    pub fn read_file_content(&self, filename: &str) -> (r: Result<Vec<u8>, Error>)
        ensures
            match r {
                Ok(content) => self@.file(text(filename)) == Ok::<Seq<u8>, Failure>(content@),
                Err(e) => self@.file(text(filename)) == Err::<Seq<u8>, Failure>(e.failure()),
            },
    {
        self.file_content(filename.as_bytes())
    }

    /// The value that a name, given as bytes, stands for.
    pub fn lookup(&self, name: &[u8]) -> (r: Option<&PomlValue>)
        ensures
            match r {
                Some(v) => self@.get(name@) == Some(v@),
                None => self@.get(name@) is None,
            },
    {
        let ghost scopes = self@.scopes;
        let mut i: usize = self.scope_layers.len();
        while i > 0
            invariant
                i <= self.scope_layers.len(),
                scopes == self@.scopes,
                self@.get(name@) == lookup_scopes(scopes, name@, i as int),
            decreases i,
        {
            match find_entry(&self.scope_layers[i - 1].variables, name) {
                Some(v) => {
                    return Some(v);
                },
                None => {},
            }
            i = i - 1;
        }
        None
    }

    /// Binds a name, given as bytes, in the innermost scope.
    pub fn bind(&mut self, name: &[u8], value: PomlValue)
        ensures
            final(self)@ == old(self)@.set(name@, value@),
    {
        let ghost before = self@.scopes;
        match self.scope_layers.pop() {
            Some(mut scope) => {
                let key = copy_range(name, 0, name.len());
                proof {
                    assert(key@ =~= name@);
                }
                put_entry(&mut scope.variables, key, value);
                self.scope_layers.push(scope);
                proof {
                    assert(self@.scopes =~= assign(before, name@, value@));
                }
            },
            None => {
                proof {
                    assert(self@.scopes =~= before);
                }
            },
        }
    }

    /// Opens a new innermost scope.
    pub fn push_scope(&mut self)
        ensures
            final(self)@ == old(self)@.push(),
    {
        self.scope_layers.push(Scope { variables: Vec::new() });
        proof {
            assert(entries_view(self.scope_layers@.last().variables@) =~= Seq::empty());
            assert(self@.scopes =~= old(self)@.scopes.push(Seq::empty()));
        }
    }

    /// Drops the innermost scope.
    pub fn pop_scope(&mut self)
        ensures
            final(self)@ == old(self)@.pop(),
    {
        let _ = self.scope_layers.pop();
        proof {
            if old(self)@.scopes.len() > 0 {
                assert(self@.scopes =~= old(self)@.scopes.drop_last());
            } else {
                assert(self@.scopes =~= old(self)@.scopes);
            }
        }
    }

    /// Evaluates an expression, given as bytes, in this context.
    pub fn evaluate_bytes(&self, expression: &[u8]) -> (r: Result<PomlValue, Error>)
        ensures
            match r {
                Ok(v) => evaluate_text(expression@, self@) == Ok::<ValueView, Failure>(v@),
                Err(e) => evaluate_text(expression@, self@) == Err::<ValueView, Failure>(
                    e.failure(),
                ),
            },
    {
        evaluate_expression_bytes(expression, self)
    }

    /// The answer that the context holds to a request.
    pub fn answer(&self, request: &Request) -> (r: Option<&Answer>)
        ensures
            match r {
                Some(answer) => lookup_answer(self@.facts, request@) == Some(answer@),
                None => lookup_answer(self@.facts, request@) is None,
            },
    {
        find_answer(&self.facts, request)
    }

    /// Adds a fact. An earlier fact that answers the same request keeps
    /// answering it.
    pub fn add_fact(&mut self, request: Request, answer: Answer)
        ensures
            final(self)@.scopes == old(self)@.scopes,
            final(self)@.facts == old(self)@.facts.push(
                FactView { request: request@, answer: answer@ },
            ),
    {
        self.facts.push(Fact { request, answer });
        proof {
            assert(self@.facts =~= old(self)@.facts.push(
                FactView { request: request@, answer: answer@ },
            ));
            assert(self@.scopes =~= old(self)@.scopes);
        }
    }

    /// Adds the content of a file, for `include` and for `src` attributes.
    pub fn add_file(&mut self, name: &str, content: &str)
        ensures
            final(self)@.scopes == old(self)@.scopes,
            final(self)@.facts == old(self)@.facts.push(
                FactView {
                    request: RequestView::ReadFile(text(name)),
                    answer: AnswerView::Text(text(content)),
                },
            ),
    {
        let name_bytes = name.as_bytes();
        let content_bytes = content.as_bytes();
        let n = copy_range(name_bytes, 0, name_bytes.len());
        let c = copy_range(content_bytes, 0, content_bytes.len());
        proof {
            assert(n@ =~= text(name));
            assert(c@ =~= text(content));
        }
        self.add_fact(Request::ReadFile(n), Answer::Text(c));
    }

    /// The content of the file whose name is given as bytes.
    pub fn file_content(&self, filename: &[u8]) -> (r: Result<Vec<u8>, Error>)
        ensures
            match r {
                Ok(content) => self@.file(filename@) == Ok::<Seq<u8>, Failure>(content@),
                Err(e) => self@.file(filename@) == Err::<Seq<u8>, Failure>(e.failure()),
            },
    {
        let name = copy_range(filename, 0, filename.len());
        proof {
            assert(name@ =~= filename@);
        }
        let request = Request::ReadFile(name);
        match self.answer(&request) {
            Some(Answer::Text(content)) => Ok(clone_bytes(content)),
            Some(_) => Err(
                Error::fixed(ErrorKind::RendererError, "The content of a file has to be text."),
            ),
            None => Err(Error::waiting(ErrorKind::RendererError, request)),
        }
    }
}

} // verus!
