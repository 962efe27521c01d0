//! Chat commands: the data that handlers share, typed arguments read from the
//! words of a message, and the choice of the command that a message invokes.
use std::collections::HashMap;
use std::sync::Arc;

use vstd::prelude::*;

use crate::numbers::{int_error_message, parse_u32, parse_unsigned};
use crate::text::{
    chars_eq, chars_of, is_whitespace, law_words_are_nonempty_without_whitespace, push_str,
    split_words, str_eq, trim, trim_chars, words,
};

verus! {

broadcast use vstd::std_specs::hash::group_hash_axioms;

/// A value that a handler takes from the shared command data rather than
/// from the words of the message.
pub struct Ctx<T>(pub T);

/// Collects the data that command handlers share, one value per key.
pub struct CommandDataBuilder<V> {
    entries: HashMap<u64, V>,
}

/// The data that command handlers share, one value per key.
pub struct CommandData<V> {
    entries: Arc<HashMap<u64, V>>,
}

impl<V> View for CommandDataBuilder<V> {
    type V = Map<u64, V>;

    closed spec fn view(&self) -> Map<u64, V> {
        self.entries@
    }
}

impl<V> View for CommandData<V> {
    type V = Map<u64, V>;

    closed spec fn view(&self) -> Map<u64, V> {
        self.entries@
    }
}

impl<V> CommandDataBuilder<V> {
    /// A builder that holds nothing.
    pub fn new() -> (r: Self)
        ensures
            r@ == Map::<u64, V>::empty(),
    {
        CommandDataBuilder { entries: HashMap::new() }
    }

    /// Stores `val` under `key`, replacing what was stored there before.
    pub fn add(&mut self, key: u64, val: V)
        ensures
            final(self)@ == old(self)@.insert(key, val),
    {
        self.entries.insert(key, val);
    }

    /// The shared data, holding what was added.
    pub fn build(self) -> (r: CommandData<V>)
        ensures
            r@ == self@,
    {
        CommandData { entries: Arc::new(self.entries) }
    }
}

/// `Arc::clone`: another pointer to the same value.
/// The contract claims that the clone holds the value that `a` points to.
#[verifier::external_body]
fn arc_clone<T>(a: &Arc<T>) -> (r: Arc<T>)
    ensures
        *r == **a,
{
    Arc::clone(a)
}

impl<V> Clone for CommandData<V> {
    /// Another handle on the same shared data.
    fn clone(&self) -> (r: Self)
        ensures
            r@ == self@,
    {
        CommandData { entries: arc_clone(&self.entries) }
    }
}

impl<V> Default for CommandDataBuilder<V> {
    /// A builder that holds nothing.
    fn default() -> (r: Self)
        ensures
            r@ == Map::<u64, V>::empty(),
    {
        CommandDataBuilder::new()
    }
}

impl<V> Default for CommandData<V> {
    /// Shared data that holds nothing.
    fn default() -> (r: Self)
        ensures
            r@ == Map::<u64, V>::empty(),
    {
        CommandDataBuilder::new().build()
    }
}

impl<V> CommandData<V> {
    /// The value stored under `key`, if any.
    pub fn get(&self, key: u64) -> (r: Option<&V>)
        ensures
            match r {
                Some(v) => self@.contains_key(key) && *v == self@[key],
                None => !self@.contains_key(key),
            },
    {
        self.entries.get(&key)
    }
}

/// The entries after adding each of `adds`, in order, to `m`: what a
/// builder holds after one `add` per pair, since each `add` inserts.
pub open spec fn after_adds<V>(m: Map<u64, V>, adds: Seq<(u64, V)>) -> Map<u64, V>
    decreases adds.len(),
{
    if adds.len() == 0 {
        m
    } else {
        after_adds(m, adds.drop_last()).insert(adds.last().0, adds.last().1)
    }
}

/// Law: after a builder that started empty (`new` or `default`) received the
/// pairs `adds` one `add` at a time and was built (and cloned, which keeps the
/// entries), `get(key)` gives the value of the last pair with that key, and
/// nothing when no pair has it.
pub proof fn law_get_returns_last_added<V>(adds: Seq<(u64, V)>, key: u64)
    ensures
        forall|j: int|
            0 <= j < adds.len() && (#[trigger] adds[j]).0 == key && (forall|l: int|
                j < l < adds.len() ==> (#[trigger] adds[l]).0 != key) ==> {
                &&& after_adds(Map::empty(), adds).contains_key(key)
                &&& after_adds(Map::empty(), adds)[key] == adds[j].1
            },
        (forall|i: int| 0 <= i < adds.len() ==> (#[trigger] adds[i]).0 != key) ==> !after_adds(
            Map::<u64, V>::empty(),
            adds,
        ).contains_key(key),
    decreases adds.len(),
{
    if adds.len() > 0 {
        let init = adds.drop_last();
        law_get_returns_last_added(init, key);
        assert forall|j: int|
            0 <= j < adds.len() && (#[trigger] adds[j]).0 == key && (forall|l: int|
                j < l < adds.len() ==> (#[trigger] adds[l]).0 != key) implies {
            &&& after_adds(Map::empty(), adds).contains_key(key)
            &&& after_adds(Map::empty(), adds)[key] == adds[j].1
        } by {
            if j < adds.len() - 1 {
                assert(adds[adds.len() - 1].0 != key);
                assert(init[j] == adds[j]);
                assert forall|l: int| j < l < init.len() implies (#[trigger] init[l]).0 != key by {
                    assert(init[l] == adds[l]);
                }
            }
        }
        if forall|i: int| 0 <= i < adds.len() ==> (#[trigger] adds[i]).0 != key {
            assert forall|i: int| 0 <= i < init.len() implies (#[trigger] init[i]).0 != key by {
                assert(init[i] == adds[i]);
            }
            assert(adds[adds.len() - 1].0 != key);
        }
    }
}

/// Why the words of a message do not give a handler its arguments.
#[derive(Debug)]
pub enum ArgError {
    /// No word was left for the named argument.
    Missing(String),
    /// The word for the named argument could not be read; the second part
    /// says why.
    Parse(String, String),
}

/// What an `ArgError` holds.
pub enum ArgErrorView {
    Missing(Seq<char>),
    Parse(Seq<char>, Seq<char>),
}

impl View for ArgError {
    type V = ArgErrorView;

    open spec fn view(&self) -> ArgErrorView {
        match self {
            ArgError::Missing(n) => ArgErrorView::Missing(n@),
            ArgError::Parse(n, m) => ArgErrorView::Parse(n@, m@),
        }
    }
}

/// The message of an argument error.
pub open spec fn arg_error_message(e: ArgErrorView) -> Seq<char> {
    match e {
        ArgErrorView::Missing(n) => "missing required argument `"@ + n + "`"@,
        ArgErrorView::Parse(n, m) => "invalid value for `"@ + n + "`: "@ + m,
    }
}

impl ArgError {
    /// The message that describes this error.
    pub fn message(&self) -> (r: String)
        ensures
            r@ == arg_error_message(self@),
    {
        let mut out = String::new();
        match self {
            ArgError::Missing(n) => {
                push_str(&mut out, "missing required argument `");
                push_str(&mut out, n.as_str());
                push_str(&mut out, "`");
            },
            ArgError::Parse(n, m) => {
                push_str(&mut out, "invalid value for `");
                push_str(&mut out, n.as_str());
                push_str(&mut out, "`: ");
                push_str(&mut out, m.as_str());
            },
        }
        assert(out@ =~= arg_error_message(self@));
        out
    }
}

/// The view of the outcome of reading an argument.
pub open spec fn arg_result_view<T: DeepView>(r: Result<T, ArgError>) -> Result<T::V, ArgErrorView> {
    match r {
        Ok(v) => Ok(v.deep_view()),
        Err(e) => Err(e@),
    }
}

/// A type that a handler argument can be read as, from one word of the
/// message.
pub trait FromArg: Sized + DeepView {
    /// What reading the word `value` for the argument `name` gives.
    spec fn from_arg_spec(name: Seq<char>, value: Seq<char>) -> Result<Self::V, ArgErrorView>;

    /// Reads the word `value` for the argument `name`.
    fn from_arg(name: &str, value: &str) -> (r: Result<Self, ArgError>)
        ensures
            arg_result_view(r) == Self::from_arg_spec(name@, value@),
    ;
}

impl FromArg for String {
    /// A text argument is the word itself.
    open spec fn from_arg_spec(name: Seq<char>, value: Seq<char>) -> Result<Seq<char>, ArgErrorView> {
        Ok(value)
    }

    fn from_arg(name: &str, value: &str) -> (r: Result<String, ArgError>) {
        Ok(value.to_owned())
    }
}

/// A whole number argument: the word read as a `u32`, or a `Parse` error
/// that carries the reason.
pub open spec fn u32_arg_spec(name: Seq<char>, value: Seq<char>) -> Result<u32, ArgErrorView> {
    match parse_unsigned(value, u32::MAX as nat) {
        Ok(v) => Ok(v as u32),
        Err(e) => Err(ArgErrorView::Parse(name, int_error_message(e))),
    }
}

impl FromArg for u32 {
    open spec fn from_arg_spec(name: Seq<char>, value: Seq<char>) -> Result<u32, ArgErrorView> {
        u32_arg_spec(name, value)
    }

    fn from_arg(name: &str, value: &str) -> (r: Result<u32, ArgError>) {
        match parse_u32(value) {
            Ok(v) => Ok(v),
            Err(e) => Err(ArgError::Parse(name.to_owned(), e.message())),
        }
    }
}

impl<T: FromArg> FromArg for Option<T> {
    /// An argument that may be left out reads its word as `T` would.
    open spec fn from_arg_spec(name: Seq<char>, value: Seq<char>) -> Result<Option<T::V>, ArgErrorView> {
        match T::from_arg_spec(name, value) {
            Ok(v) => Ok(Some(v)),
            Err(e) => Err(e),
        }
    }

    fn from_arg(name: &str, value: &str) -> (r: Result<Option<T>, ArgError>) {
        match T::from_arg(name, value) {
            Ok(v) => Ok(Some(v)),
            Err(e) => Err(e),
        }
    }
}


/// The words of a message that are still to be read as arguments.
pub struct Args {
    words: Vec<String>,
    next: usize,
}

impl View for Args {
    type V = Seq<Seq<char>>;

    closed spec fn view(&self) -> Seq<Seq<char>> {
        self.words@.skip(self.next as int).map_values(|w: String| w@)
    }
}

impl Args {
    #[verifier::type_invariant]
    spec fn wf(self) -> bool {
        self.next <= self.words@.len()
    }

    /// All of `words`, in order, still to be read.
    pub fn new(words: Vec<String>) -> (r: Self)
        ensures
            r@ == words@.map_values(|w: String| w@),
    {
        let r = Args { words, next: 0 };
        assert(r.words@.skip(0) =~= r.words@);
        r
    }

    /// Reads the next word as the required argument `name`: a `Missing`
    /// error when no word is left, else what `T` makes of the word.
    pub fn next_required<T: FromArg>(&mut self, name: &str) -> (r: Result<T, ArgError>)
        ensures
            old(self)@.len() == 0 ==> final(self)@ == old(self)@ && arg_result_view(r) == Err::<
                T::V,
                ArgErrorView,
            >(ArgErrorView::Missing(name@)),
            old(self)@.len() > 0 ==> final(self)@ == old(self)@.drop_first() && arg_result_view(r)
                == T::from_arg_spec(name@, old(self)@[0]),
    {
        proof {
            use_type_invariant(&*self);
        }
        if self.next < self.words.len() {
            let i = self.next;
            let r = T::from_arg(name, self.words[i].as_str());
            self.next = i + 1;
            assert(self@ =~= old(self)@.drop_first());
            r
        } else {
            Err(ArgError::Missing(name.to_owned()))
        }
    }

    /// Reads the next word, if there is one, as the optional argument
    /// `name`: `None` when no word is left, else what `T` makes of the word.
    pub fn next_optional<T: FromArg>(&mut self, name: &str) -> (r: Result<Option<T>, ArgError>)
        ensures
            old(self)@.len() == 0 ==> final(self)@ == old(self)@ && r matches Ok(None),
            old(self)@.len() > 0 ==> final(self)@ == old(self)@.drop_first() && arg_result_view(r)
                == <Option<T> as FromArg>::from_arg_spec(name@, old(self)@[0]),
    {
        proof {
            use_type_invariant(&*self);
        }
        if self.next < self.words.len() {
            let i = self.next;
            let r = <Option<T> as FromArg>::from_arg(name, self.words[i].as_str());
            self.next = i + 1;
            assert(self@ =~= old(self)@.drop_first());
            r
        } else {
            Ok(None)
        }
    }
}

/// The type a handler argument is read as.
#[derive(Clone, Copy, Debug, PartialEq, Eq, Structural)]
pub enum ArgType {
    /// The word itself (`String`).
    Text,
    /// A whole number (`u32`).
    Number,
}

/// One parameter of a handler after the context, as its arguments are read:
/// shared data, or a word read as `ty`, which may be left out when
/// `optional` (an `Option<..>` parameter).
pub enum Param {
    Context,
    Word { name: String, ty: ArgType, optional: bool },
}

/// What a handler receives for one parameter.
#[derive(Debug, PartialEq, Eq)]
pub enum BoundArg {
    /// Shared data, taken from the command data.
    Context,
    /// An optional argument for which no word was left.
    Absent,
    Text(String),
    Number(u32),
}

/// What a `Param` holds.
pub enum ParamView {
    Context,
    Word { name: Seq<char>, ty: ArgType, optional: bool },
}

/// What a `BoundArg` holds.
pub enum BoundView {
    Context,
    Absent,
    Text(Seq<char>),
    Number(u32),
}

pub open spec fn param_view(p: Param) -> ParamView {
    match p {
        Param::Context => ParamView::Context,
        Param::Word { name, ty, optional } => ParamView::Word { name: name@, ty, optional },
    }
}

pub open spec fn bound_view(b: BoundArg) -> BoundView {
    match b {
        BoundArg::Context => BoundView::Context,
        BoundArg::Absent => BoundView::Absent,
        BoundArg::Text(t) => BoundView::Text(t@),
        BoundArg::Number(n) => BoundView::Number(n),
    }
}

/// The word `word` read for the argument `name` as `ty`, as `FromArg` reads
/// it for `String` and `u32`.
pub open spec fn read_word(name: Seq<char>, ty: ArgType, word: Seq<char>) -> Result<BoundView, ArgErrorView> {
    match ty {
        ArgType::Text => match <String as FromArg>::from_arg_spec(name, word) {
            Ok(t) => Ok(BoundView::Text(t)),
            Err(e) => Err(e),
        },
        ArgType::Number => match <u32 as FromArg>::from_arg_spec(name, word) {
            Ok(n) => Ok(BoundView::Number(n)),
            Err(e) => Err(e),
        },
    }
}

/// What the parameter `p` receives when `word` is the word left for it
/// (`None` when no word is left): a missing required word is a `Missing`
/// error naming the parameter.
pub open spec fn read_param(p: ParamView, word: Option<Seq<char>>) -> Result<BoundView, ArgErrorView> {
    match p {
        ParamView::Context => Ok(BoundView::Context),
        ParamView::Word { name, ty, optional } => match word {
            None => if optional {
                Ok(BoundView::Absent)
            } else {
                Err(ArgErrorView::Missing(name))
            },
            Some(w) => read_word(name, ty, w),
        },
    }
}

/// The first of `words`, if any.
pub open spec fn next_word(words: Seq<Seq<char>>) -> Option<Seq<char>> {
    if words.len() > 0 {
        Some(words[0])
    } else {
        None
    }
}

/// The words left after a parameter of the kind `p` has read its word.
pub open spec fn words_after(p: ParamView, words: Seq<Seq<char>>) -> Seq<Seq<char>> {
    if p is Word && words.len() > 0 {
        words.drop_first()
    } else {
        words
    }
}

/// The arguments of a handler with parameters `params`, read from `words`:
/// parameter by parameter, each word parameter takes the next word; the
/// first parameter that cannot be read gives the error.
pub open spec fn bind_spec(params: Seq<ParamView>, words: Seq<Seq<char>>) -> Result<
    Seq<BoundView>,
    ArgErrorView,
>
    decreases params.len(),
{
    if params.len() == 0 {
        Ok(Seq::empty())
    } else {
        let w = if params[0] is Word {
            next_word(words)
        } else {
            None
        };
        match read_param(params[0], w) {
            Err(e) => Err(e),
            Ok(b) => match bind_spec(params.drop_first(), words_after(params[0], words)) {
                Ok(bs) => Ok(seq![b] + bs),
                Err(e) => Err(e),
            },
        }
    }
}

/// `xs` put in front of the arguments of `r`, if it has them.
pub open spec fn prepend_bound(xs: Seq<BoundView>, r: Result<Seq<BoundView>, ArgErrorView>) -> Result<
    Seq<BoundView>,
    ArgErrorView,
> {
    match r {
        Ok(s) => Ok(xs + s),
        Err(e) => Err(e),
    }
}

/// The view of the outcome of reading a handler's arguments.
pub open spec fn bind_result_view(r: Result<Vec<BoundArg>, ArgError>) -> Result<Seq<BoundView>, ArgErrorView> {
    match r {
        Ok(v) => Ok(v@.map_values(|b: BoundArg| bound_view(b))),
        Err(e) => Err(e@),
    }
}

/// Reads the arguments of a handler with parameters `params` from the words
/// of a message (see `bind_spec`): on success one `BoundArg` per parameter;
/// otherwise the error of the first parameter that cannot be read, before
/// the handler would run.
pub fn bind_args(params: &Vec<Param>, words: Vec<String>) -> (r: Result<Vec<BoundArg>, ArgError>)
    ensures
        bind_result_view(r) == bind_spec(
            params@.map_values(|p: Param| param_view(p)),
            words@.map_values(|w: String| w@),
        ),
{
    let ghost ps = params@.map_values(|p: Param| param_view(p));
    let mut args = Args::new(words);
    let mut out: Vec<BoundArg> = Vec::new();
    let n = params.len();
    assert(ps.skip(0) =~= ps);
    assert(out@.map_values(|b: BoundArg| bound_view(b)) =~= Seq::<BoundView>::empty());
    for i in 0..n
        invariant
            n == params@.len(),
            ps == params@.map_values(|p: Param| param_view(p)),
            bind_spec(ps, words@.map_values(|w: String| w@)) == prepend_bound(
                out@.map_values(|b: BoundArg| bound_view(b)),
                bind_spec(ps.skip(i as int), args@),
            ),
    {
        let ghost before = out@.map_values(|b: BoundArg| bound_view(b));
        let ghost rest = ps.skip(i as int);
        let ghost wl = args@;
        assert(rest[0] == param_view(params@[i as int]));
        assert(rest.drop_first() =~= ps.skip(i + 1));
        let b = match &params[i] {
            Param::Context => BoundArg::Context,
            Param::Word { name, ty, optional } => {
                if *optional {
                    match ty {
                        ArgType::Text => match args.next_optional::<String>(name.as_str()) {
                            Ok(Some(t)) => BoundArg::Text(t),
                            Ok(None) => BoundArg::Absent,
                            Err(e) => return Err(e),
                        },
                        ArgType::Number => match args.next_optional::<u32>(name.as_str()) {
                            Ok(Some(v)) => BoundArg::Number(v),
                            Ok(None) => BoundArg::Absent,
                            Err(e) => return Err(e),
                        },
                    }
                } else {
                    match ty {
                        ArgType::Text => match args.next_required::<String>(name.as_str()) {
                            Ok(t) => BoundArg::Text(t),
                            Err(e) => return Err(e),
                        },
                        ArgType::Number => match args.next_required::<u32>(name.as_str()) {
                            Ok(v) => BoundArg::Number(v),
                            Err(e) => return Err(e),
                        },
                    }
                }
            },
        };
        proof {
            assert(args@ == words_after(rest[0], wl));
            assert(out@.push(b).map_values(|x: BoundArg| bound_view(x)) =~= before.push(bound_view(b)));
            assert(before + (seq![bound_view(b)] + Seq::empty()) =~= before.push(bound_view(b)));
            match bind_spec(ps.skip(i + 1), args@) {
                Ok(bs) => {
                    assert(before + (seq![bound_view(b)] + bs) =~= before.push(bound_view(b)) + bs);
                },
                Err(_) => {},
            }
        }
        out.push(b);
    }
    proof {
        assert(ps.skip(n as int) =~= Seq::<ParamView>::empty());
        assert(out@.map_values(|b: BoundArg| bound_view(b)) + Seq::<BoundView>::empty()
            =~= out@.map_values(|b: BoundArg| bound_view(b)));
    }
    Ok(out)
}

/// How many of `params` read a word.
pub open spec fn word_param_count(params: Seq<ParamView>) -> nat
    decreases params.len(),
{
    if params.len() == 0 {
        0
    } else {
        (if params[0] is Word {
            1nat
        } else {
            0nat
        }) + word_param_count(params.drop_first())
    }
}

/// The word that parameter `i` reads: the k-th word, where k is the number
/// of word parameters before it; `None` when there are not that many words.
pub open spec fn word_for(params: Seq<ParamView>, words: Seq<Seq<char>>, i: int) -> Option<Seq<char>> {
    let k = word_param_count(params.take(i));
    if k < words.len() {
        Some(words[k as int])
    } else {
        None
    }
}

/// What parameter `i` receives, read on its own.
pub open spec fn outcome_at(params: Seq<ParamView>, words: Seq<Seq<char>>, i: int) -> Result<
    BoundView,
    ArgErrorView,
> {
    read_param(params[i], word_for(params, words, i))
}

proof fn lemma_outcome_shift(params: Seq<ParamView>, words: Seq<Seq<char>>, i: int)
    requires
        0 <= i < params.len() - 1,
    ensures
        outcome_at(params, words, i + 1) == outcome_at(
            params.drop_first(),
            words_after(params[0], words),
            i,
        ),
{
    let t = params.take(i + 1);
    assert(t[0] == params[0]);
    assert(t.drop_first() =~= params.drop_first().take(i));
    assert(word_param_count(t) == (if params[0] is Word {
        1nat
    } else {
        0nat
    }) + word_param_count(params.drop_first().take(i)));
    assert(params[i + 1] == params.drop_first()[i]);
    let k2 = word_param_count(params.drop_first().take(i));
    if params[0] is Word && words.len() > 0 {
        if k2 < words.drop_first().len() {
            assert(words[(k2 + 1) as int] == words.drop_first()[k2 as int]);
        }
    }
}

proof fn lemma_outcome_first(params: Seq<ParamView>, words: Seq<Seq<char>>)
    requires
        params.len() > 0,
    ensures
        outcome_at(params, words, 0) == read_param(
            params[0],
            if params[0] is Word {
                next_word(words)
            } else {
                None
            },
        ),
{
    assert(params.take(0) =~= Seq::<ParamView>::empty());
}

/// Law: reading a handler's arguments gives parameter `i` what it reads on
/// its own from the word it is owed (the k-th word, for the k word
/// parameters before it; extra words are ignored), when every parameter can
/// be read; otherwise the result is the error of the first parameter that
/// cannot be read (a `Missing` error naming a required parameter with no
/// word left, or the error its word gives).
pub proof fn law_bind_reads_words_in_order(params: Seq<ParamView>, words: Seq<Seq<char>>)
    ensures
        (forall|i: int| 0 <= i < params.len() ==> (#[trigger] outcome_at(params, words, i)) is Ok)
            ==> (bind_spec(params, words) matches Ok(bs) && bs.len() == params.len() && forall|i: int|
            0 <= i < params.len() ==> bs[i] == (#[trigger] outcome_at(params, words, i))->Ok_0),
        forall|i: int|
            0 <= i < params.len() && (#[trigger] outcome_at(params, words, i)) is Err && (forall|j: int|
                0 <= j < i ==> (#[trigger] outcome_at(params, words, j)) is Ok) ==> bind_spec(
                params,
                words,
            ) == Err::<Seq<BoundView>, ArgErrorView>(outcome_at(params, words, i)->Err_0),
    decreases params.len(),
{
    if params.len() > 0 {
        let rest = params.drop_first();
        let ws = words_after(params[0], words);
        law_bind_reads_words_in_order(rest, ws);
        lemma_outcome_first(params, words);
        assert forall|i: int| 0 <= i < rest.len() implies #[trigger] outcome_at(rest, ws, i)
            == outcome_at(params, words, i + 1) by {
            lemma_outcome_shift(params, words, i);
        }
        if forall|i: int| 0 <= i < params.len() ==> (#[trigger] outcome_at(params, words, i)) is Ok {
            assert forall|i: int| 0 <= i < rest.len() implies (#[trigger] outcome_at(rest, ws, i)) is Ok by {
                assert(outcome_at(params, words, i + 1) is Ok);
            }
            assert(outcome_at(params, words, 0) is Ok);
            let bs = bind_spec(rest, ws)->Ok_0;
            let all = seq![outcome_at(params, words, 0)->Ok_0] + bs;
            assert(bind_spec(params, words) == Ok::<Seq<BoundView>, ArgErrorView>(all));
            assert forall|i: int| 0 <= i < params.len() implies all[i] == (#[trigger] outcome_at(
                params,
                words,
                i,
            ))->Ok_0 by {
                if i > 0 {
                    assert(all[i] == bs[i - 1]);
                    assert(outcome_at(rest, ws, i - 1) == outcome_at(params, words, i));
                }
            }
        }
        assert forall|i: int|
            0 <= i < params.len() && (#[trigger] outcome_at(params, words, i)) is Err && (forall|j: int|
                0 <= j < i ==> (#[trigger] outcome_at(params, words, j)) is Ok) implies bind_spec(
            params,
            words,
        ) == Err::<Seq<BoundView>, ArgErrorView>(outcome_at(params, words, i)->Err_0) by {
            if i > 0 {
                assert(outcome_at(params, words, 0) is Ok);
                assert(outcome_at(rest, ws, i - 1) == outcome_at(params, words, i));
                assert forall|j: int| 0 <= j < i - 1 implies (#[trigger] outcome_at(rest, ws, j)) is Ok by {
                    assert(outcome_at(rest, ws, j) == outcome_at(params, words, j + 1));
                    assert(outcome_at(params, words, j + 1) is Ok);
                }
                assert(outcome_at(rest, ws, i - 1) is Err);
            }
        }
    }
}

/// Whether `p` is a prefix of `s`.
pub open spec fn starts_with(s: Seq<char>, p: Seq<char>) -> bool {
    p.len() <= s.len() && s.take(p.len() as int) == p
}

/// The words that follow the prefix in a message that invokes a command, or
/// `None` when the trimmed message does not start with the prefix.
pub open spec fn invocation_words(prefix: Seq<char>, body: Seq<char>) -> Option<Seq<Seq<char>>> {
    let b = trim(body);
    if starts_with(b, prefix) {
        Some(words(b.skip(prefix.len() as int)))
    } else {
        None
    }
}

/// The name of the invoked command: the first word, or nothing when there
/// are no words.
pub open spec fn command_name(ws: Seq<Seq<char>>) -> Seq<char> {
    if ws.len() > 0 {
        ws[0]
    } else {
        Seq::empty()
    }
}

/// The arguments of the invoked command: the words after its name.
pub open spec fn command_args(ws: Seq<Seq<char>>) -> Seq<Seq<char>> {
    if ws.len() > 0 {
        ws.drop_first()
    } else {
        Seq::empty()
    }
}

/// Whether a room message is looked at for a command: only a text message,
/// and only in a room that the bot has joined.
pub fn handles_message(room_joined: bool, is_text: bool) -> (r: bool)
    ensures
        r == (room_joined && is_text),
{
    room_joined && is_text
}

/// Which of `commands` a message invokes, and with which arguments.
/// `None` when the trimmed message does not start with `prefix`, or when no
/// command has the name that follows it; otherwise the first command with
/// that name and the words after the name.
pub fn dispatch(prefix: &str, body: &str, commands: &Vec<String>) -> (r: Option<(usize, Vec<String>)>)
    ensures
        match invocation_words(prefix@, body@) {
            None => r is None,
            Some(ws) => match r {
                None => forall|i: int|
                    0 <= i < commands@.len() ==> #[trigger] commands@[i]@ != command_name(ws),
                Some((i, args)) => {
                    &&& i < commands@.len()
                    &&& commands@[i as int]@ == command_name(ws)
                    &&& forall|j: int| 0 <= j < i ==> #[trigger] commands@[j]@ != command_name(ws)
                    &&& args@.map_values(|a: String| a@) == command_args(ws)
                },
            },
        },
{
    let all = chars_of(body);
    let b = trim_chars(all.as_slice());
    let p = chars_of(prefix);
    if p.len() > b.len() {
        return None;
    }
    if !chars_eq(&b.as_slice()[0..p.len()], p.as_slice()) {
        assert(!starts_with(b@, p@));
        return None;
    }
    assert(b@.take(p@.len() as int) =~= b@.subrange(0, p@.len() as int));
    let rest = &b.as_slice()[p.len()..b.len()];
    assert(rest@ =~= b@.skip(p@.len() as int));
    let mut ws = split_words(rest);
    let ghost wv = words(rest@);
    let name = if ws.len() > 0 {
        ws.remove(0)
    } else {
        String::new()
    };
    assert(name@ == command_name(wv));
    assert(ws@.map_values(|a: String| a@) =~= command_args(wv));
    assert(invocation_words(prefix@, body@) == Some(wv));
    let n = commands.len();
    let mut i: usize = 0;
    while i < n
        invariant
            n == commands@.len(),
            i <= n,
            invocation_words(prefix@, body@) == Some(wv),
            name@ == command_name(wv),
            ws@.map_values(|a: String| a@) == command_args(wv),
            forall|j: int| 0 <= j < i ==> #[trigger] commands@[j]@ != name@,
        decreases n - i,
    {
        if commands[i] == name {
            return Some((i, ws));
        }
        i = i + 1;
    }
    None
}

/// Law: the arguments a command receives are non-empty and hold no
/// whitespace.
pub proof fn law_command_args_are_words(prefix: Seq<char>, body: Seq<char>)
    ensures
        invocation_words(prefix, body) matches Some(ws) ==> {
            &&& forall|i: int| 0 <= i < command_args(ws).len() ==> #[trigger] command_args(ws)[i].len() > 0
            &&& forall|i: int, j: int|
                0 <= i < command_args(ws).len() && 0 <= j < command_args(ws)[i].len()
                    ==> !is_whitespace(#[trigger] command_args(ws)[i][j])
        },
{
    if let Some(ws) = invocation_words(prefix, body) {
        let b = trim(body);
        law_words_are_nonempty_without_whitespace(b.skip(prefix.len() as int));
        if ws.len() > 0 {
            assert forall|i: int| 0 <= i < command_args(ws).len() implies #[trigger] command_args(ws)[i].len() > 0 by {
                assert(command_args(ws)[i] == ws[i + 1]);
            }
            assert forall|i: int, j: int|
                0 <= i < command_args(ws).len() && 0 <= j < command_args(ws)[i].len()
                    implies !is_whitespace(#[trigger] command_args(ws)[i][j]) by {
                assert(command_args(ws)[i] == ws[i + 1]);
            }
        }
    }
}

/// What the admin's reply to a pending emoji comparison means: `None` when it
/// is not from the admin or is neither `yes` nor `no` (it is ignored), else
/// whether the comparison is confirmed.
pub fn sas_reply(sender: &str, admin: &str, decision: &str) -> (r: Option<bool>)
    ensures
        r == if sender@ != admin@ || (decision@ != "yes"@ && decision@ != "no"@) {
            None::<bool>
        } else {
            Some(decision@ == "yes"@)
        },
{
    if !str_eq(sender, admin) {
        return None;
    }
    let yes = str_eq(decision, "yes");
    let no = str_eq(decision, "no");
    if !yes && !no {
        return None;
    }
    Some(yes)
}

/// Law: an optional word parameter that has a word reads it exactly as a
/// required one does, errors included; only a missing word makes it absent.
pub proof fn law_optional_word_reads_like_required(name: Seq<char>, ty: ArgType, w: Seq<char>)
    ensures
        read_param(ParamView::Word { name, ty, optional: true }, Some(w)) == read_param(
            ParamView::Word { name, ty, optional: false },
            Some(w),
        ),
        read_param(ParamView::Word { name, ty, optional: true }, Some(w)) == match ty {
            ArgType::Text => Ok::<BoundView, ArgErrorView>(BoundView::Text(w)),
            ArgType::Number => match u32_arg_spec(name, w) {
                Ok(n) => Ok::<BoundView, ArgErrorView>(BoundView::Number(n)),
                Err(e) => Err(e),
            },
        },
        read_param(ParamView::Word { name, ty, optional: true }, None) == Ok::<
            BoundView,
            ArgErrorView,
        >(BoundView::Absent),
        read_param(ParamView::Word { name, ty, optional: false }, None) == Err::<
            BoundView,
            ArgErrorView,
        >(ArgErrorView::Missing(name)),
{
}

} // verus!
