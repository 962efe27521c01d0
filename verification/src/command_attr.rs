//! How the `command` attribute reads a handler's signature: the first
//! parameter is the command context; each later one is either shared data
//! (`Ctx<T>`), an optional argument (`Option<T>`) or a required argument,
//! named after its pattern. Types and patterns are held as plain values.
//! The handler the attribute generates fills those parameters in order from
//! the words of a message and the shared command data (`run_plan`).
use vstd::prelude::*;

use crate::commands::{
    bound_view, outcome_at, param_view, read_param, word_for, word_param_count, ArgError,
    ArgErrorView, ArgType, BoundArg, BoundView, CommandData, FromArg, Param, ParamView,
};
use crate::text::str_eq;

verus! {

/// A type as the attribute sees it: a path such as `Option<u32>`, or any
/// other kind of type.
pub enum TypeRepr {
    Path(Vec<PathSegment>),
    Other,
}

/// One segment of a type path, such as `Ctx<OsuClient>`.
pub struct PathSegment {
    pub ident: String,
    pub arguments: PathArguments,
}

/// The arguments of a path segment.
pub enum PathArguments {
    NoArguments,
    AngleBracketed(Vec<GenericArgument>),
    Parenthesized,
}

/// One argument between angle brackets.
pub enum GenericArgument {
    Type(TypeRepr),
    Other,
}

/// The pattern of a parameter.
pub enum PatRepr {
    Ident(String),
    Other,
}

/// A parameter of the handler.
pub enum FnArgRepr {
    Receiver,
    Typed { pat: PatRepr, ty: TypeRepr },
}

/// How the handler receives one of its parameters.
pub enum ArgBinding {
    /// The shared value of this type, from the command data.
    Context(TypeRepr),
    /// The next word, if there is one, read for the argument of this name.
    Optional(String),
    /// The next word, which must be there, read for the argument of this name.
    Required(String),
}

/// Whether `ty` is a path whose last segment is `Ctx`.
pub open spec fn spec_is_ctx(ty: TypeRepr) -> bool {
    match ty {
        TypeRepr::Path(segs) => segs@.len() > 0 && segs@.last().ident@ == "Ctx"@,
        TypeRepr::Other => false,
    }
}

/// Whether `ty` is a path whose last segment is `Option`.
pub open spec fn spec_is_option(ty: TypeRepr) -> bool {
    match ty {
        TypeRepr::Path(segs) => segs@.len() > 0 && segs@.last().ident@ == "Option"@,
        TypeRepr::Other => false,
    }
}

/// The first type between the angle brackets of the last segment of `ty`.
pub open spec fn spec_first_type_arg(ty: TypeRepr) -> Option<TypeRepr> {
    match ty {
        TypeRepr::Path(segs) => if segs@.len() > 0 {
            match segs@.last().arguments {
                PathArguments::AngleBracketed(args) => if args@.len() > 0 {
                    match args@[0] {
                        GenericArgument::Type(t) => Some(t),
                        GenericArgument::Other => None,
                    }
                } else {
                    None
                },
                _ => None,
            }
        } else {
            None
        },
        TypeRepr::Other => None,
    }
}

/// For `Ctx<T, ...>`: the type `T`.
pub open spec fn spec_ctx_inner(ty: TypeRepr) -> Option<TypeRepr> {
    if spec_is_ctx(ty) {
        spec_first_type_arg(ty)
    } else {
        None
    }
}

/// Whether `ty` is a path whose last segment is `name`.
pub open spec fn spec_last_ident_is(ty: TypeRepr, name: Seq<char>) -> bool {
    match ty {
        TypeRepr::Path(segs) => segs@.len() > 0 && segs@.last().ident@ == name,
        TypeRepr::Other => false,
    }
}

/// The type a word is read as for a parameter of type `ty`: `String` is
/// read as text and `u32` as a number (the types that implement `FromArg`
/// for a single word).
pub open spec fn arg_type_of(ty: TypeRepr) -> Option<ArgType> {
    if spec_last_ident_is(ty, "String"@) {
        Some(ArgType::Text)
    } else if spec_last_ident_is(ty, "u32"@) {
        Some(ArgType::Number)
    } else {
        None
    }
}

/// The type the word of a non-`Ctx` parameter of type `ty` is read as: for
/// `Option<T>` that of `T`, else that of `ty`.
pub open spec fn word_type_of(ty: TypeRepr) -> Option<ArgType> {
    if spec_is_option(ty) {
        match spec_first_type_arg(ty) {
            Some(t) => arg_type_of(t),
            None => None,
        }
    } else {
        arg_type_of(ty)
    }
}

/// Whether the attribute accepts `arg` as a parameter after the context:
/// a typed parameter; a `Ctx` one names its inner type, any other one is a
/// plain name.
pub open spec fn supported_param(arg: FnArgRepr) -> bool {
    match arg {
        FnArgRepr::Typed { pat, ty } => if spec_is_ctx(ty) {
            spec_ctx_inner(ty) is Some
        } else {
            pat is Ident && word_type_of(ty) is Some
        },
        FnArgRepr::Receiver => false,
    }
}

/// How the words of a message reach a supported parameter: a `Ctx`
/// parameter takes no word; any other one reads the next word, as the type
/// `word_type_of` gives, and may be left out when it is an `Option`.
pub open spec fn param_of(arg: FnArgRepr) -> ParamView {
    match arg {
        FnArgRepr::Typed { pat, ty } => if spec_is_ctx(ty) {
            ParamView::Context
        } else {
            match pat {
                PatRepr::Ident(name) => ParamView::Word {
                    name: name@,
                    ty: word_type_of(ty)->0,
                    optional: spec_is_option(ty),
                },
                PatRepr::Other => arbitrary(),
            }
        },
        FnArgRepr::Receiver => arbitrary(),
    }
}

/// How a supported parameter is received.
pub open spec fn binding_of(arg: FnArgRepr) -> ArgBinding {
    match arg {
        FnArgRepr::Typed { pat, ty } => if spec_is_ctx(ty) {
            ArgBinding::Context(spec_ctx_inner(ty)->0)
        } else {
            match pat {
                PatRepr::Ident(name) => if spec_is_option(ty) {
                    ArgBinding::Optional(name)
                } else {
                    ArgBinding::Required(name)
                },
                PatRepr::Other => ArgBinding::Required(arbitrary()),
            }
        },
        FnArgRepr::Receiver => ArgBinding::Required(arbitrary()),
    }
}

fn last_ident_is(ty: &TypeRepr, name: &str) -> (r: bool)
    ensures
        r == match *ty {
            TypeRepr::Path(segs) => segs@.len() > 0 && segs@.last().ident@ == name@,
            TypeRepr::Other => false,
        },
{
    match ty {
        TypeRepr::Path(segs) => {
            if segs.len() == 0 {
                return false;
            }
            str_eq(segs[segs.len() - 1].ident.as_str(), name)
        },
        TypeRepr::Other => false,
    }
}

/// Whether `ty` is `Ctx<..>` (judged by the last segment of its path).
pub fn is_ctx(ty: &TypeRepr) -> (r: bool)
    ensures
        r == spec_is_ctx(*ty),
{
    last_ident_is(ty, "Ctx")
}

/// Whether `ty` is `Option<..>` (judged by the last segment of its path).
pub fn is_option(ty: &TypeRepr) -> (r: bool)
    ensures
        r == spec_is_option(*ty),
{
    last_ident_is(ty, "Option")
}

/// The first type between the angle brackets of the last segment of `ty`.
pub fn first_type_arg(ty: &TypeRepr) -> (r: Option<&TypeRepr>)
    ensures
        match r {
            Some(t) => spec_first_type_arg(*ty) == Some(*t),
            None => spec_first_type_arg(*ty) is None,
        },
{
    match ty {
        TypeRepr::Path(segs) => {
            if segs.len() == 0 {
                return None;
            }
            let seg = &segs[segs.len() - 1];
            match &seg.arguments {
                PathArguments::AngleBracketed(args) => {
                    if args.len() == 0 {
                        return None;
                    }
                    match &args[0] {
                        GenericArgument::Type(t) => Some(t),
                        GenericArgument::Other => None,
                    }
                },
                _ => None,
            }
        },
        TypeRepr::Other => None,
    }
}

/// For `Ctx<T, ...>`: the type `T`; `None` for any other type.
pub fn ctx_inner_type(ty: &TypeRepr) -> (r: Option<&TypeRepr>)
    ensures
        match r {
            Some(t) => spec_ctx_inner(*ty) == Some(*t),
            None => spec_ctx_inner(*ty) is None,
        },
{
    if !is_ctx(ty) {
        return None;
    }
    first_type_arg(ty)
}

/// The type a word is read as for a parameter of type `ty` (see
/// `arg_type_of`).
pub fn arg_type(ty: &TypeRepr) -> (r: Option<ArgType>)
    ensures
        r == arg_type_of(*ty),
{
    if last_ident_is(ty, "String") {
        Some(ArgType::Text)
    } else if last_ident_is(ty, "u32") {
        Some(ArgType::Number)
    } else {
        None
    }
}

/// The type the word of a non-`Ctx` parameter of type `ty` is read as (see
/// `word_type_of`).
pub fn word_type(ty: &TypeRepr) -> (r: Option<ArgType>)
    ensures
        r == word_type_of(*ty),
{
    if is_option(ty) {
        match first_type_arg(ty) {
            Some(t) => arg_type(t),
            None => None,
        }
    } else {
        arg_type(ty)
    }
}

/// Whether the attribute accepts `arg` as a parameter after the context.
pub fn param_supported(arg: &FnArgRepr) -> (r: bool)
    ensures
        r == supported_param(*arg),
{
    match arg {
        FnArgRepr::Typed { pat, ty } => {
            if is_ctx(ty) {
                ctx_inner_type(ty).is_some()
            } else {
                match pat {
                    PatRepr::Ident(_) => word_type(ty).is_some(),
                    PatRepr::Other => false,
                }
            }
        },
        FnArgRepr::Receiver => false,
    }
}

/// Whether the attribute accepts every parameter of a handler after the
/// first (the context); the attribute refuses the handler otherwise.
pub fn signature_supported(inputs: &Vec<FnArgRepr>) -> (r: bool)
    ensures
        r == forall|i: int|
            0 <= i < after_context(inputs@).len() ==> supported_param(
                #[trigger] after_context(inputs@)[i],
            ),
{
    let ghost tail = after_context(inputs@);
    let n = inputs.len();
    if n == 0 {
        return true;
    }
    for i in 1..n
        invariant
            n == inputs@.len(),
            n > 0,
            tail == inputs@.skip(1),
            forall|j: int| 0 <= j < i - 1 ==> supported_param(#[trigger] tail[j]),
    {
        assert(tail[i - 1] == inputs@[i as int]);
        if !param_supported(&inputs[i]) {
            assert(!supported_param(tail[i - 1]));
            assert(tail == after_context(inputs@));
            return false;
        }
    }
    true
}

/// Takes the inner type out of `Ctx<T, ...>`.
fn into_ctx_inner(ty: TypeRepr) -> (r: Option<TypeRepr>)
    ensures
        r == spec_ctx_inner(ty),
{
    if !is_ctx(&ty) {
        return None;
    }
    match ty {
        TypeRepr::Path(segs) => {
            let ghost old_segs = segs@;
            let mut segs = segs;
            let seg = segs.pop().unwrap();
            assert(seg == old_segs.last());
            match seg.arguments {
                PathArguments::AngleBracketed(args) => {
                    if args.len() == 0 {
                        return None;
                    }
                    let ghost old_args = args@;
                    let mut args = args;
                    let first = args.remove(0);
                    assert(first == old_args[0]);
                    match first {
                        GenericArgument::Type(t) => Some(t),
                        GenericArgument::Other => None,
                    }
                },
                _ => None,
            }
        },
        TypeRepr::Other => None,
    }
}

/// How the handler receives the supported parameter `arg`, and how the words
/// of a message reach it.
fn bind(arg: FnArgRepr) -> (r: (ArgBinding, Param))
    requires
        supported_param(arg),
    ensures
        r.0 == binding_of(arg),
        param_view(r.1) == param_of(arg),
{
    match arg {
        FnArgRepr::Typed { pat, ty } => {
            if is_ctx(&ty) {
                let inner = into_ctx_inner(ty);
                (ArgBinding::Context(inner.unwrap()), Param::Context)
            } else {
                let optional = is_option(&ty);
                let read_as = word_type(&ty).unwrap();
                match pat {
                    PatRepr::Ident(name) => {
                        let param = Param::Word { name: name.clone(), ty: read_as, optional };
                        if optional {
                            (ArgBinding::Optional(name), param)
                        } else {
                            (ArgBinding::Required(name), param)
                        }
                    },
                    PatRepr::Other => {
                        assert(false);
                        (ArgBinding::Required(String::new()), Param::Context)
                    },
                }
            }
        },
        FnArgRepr::Receiver => {
            assert(false);
            (ArgBinding::Required(String::new()), Param::Context)
        },
    }
}

/// A command as the attribute registers it: its name, how its handler
/// receives each parameter after the context, and how the words of a message
/// reach those parameters.
pub struct CommandPlan {
    pub name: String,
    pub bindings: Vec<ArgBinding>,
    pub params: Vec<Param>,
}

/// The parameters after the first one (the context).
pub open spec fn after_context(inputs: Seq<FnArgRepr>) -> Seq<FnArgRepr> {
    if inputs.len() > 0 {
        inputs.skip(1)
    } else {
        Seq::empty()
    }
}

/// What the `command` attribute makes of a handler registered under `name`
/// with the parameters `inputs`: the first parameter (the context) is passed
/// through, and every later one gets the binding `binding_of` gives it and
/// reads the words as `param_of` says.
pub fn command(name: String, inputs: Vec<FnArgRepr>) -> (r: CommandPlan)
    requires
        forall|i: int| 0 <= i < after_context(inputs@).len() ==> supported_param(
            #[trigger] after_context(inputs@)[i],
        ),
    ensures
        r.name == name,
        r.bindings@ == after_context(inputs@).map_values(|a: FnArgRepr| binding_of(a)),
        param_views(r.params@) == signature_params(inputs@),
{
    let ghost tail = after_context(inputs@);
    let mut rest = inputs;
    let mut bindings: Vec<ArgBinding> = Vec::new();
    let mut params: Vec<Param> = Vec::new();
    if rest.len() > 0 {
        rest.remove(0);
    }
    assert(rest@ =~= tail);
    let ghost n = tail.len();
    while rest.len() > 0
        invariant
            n == tail.len(),
            rest@.len() + bindings@.len() == n,
            params@.len() == bindings@.len(),
            rest@ == tail.skip(bindings@.len() as int),
            forall|i: int| 0 <= i < tail.len() ==> supported_param(#[trigger] tail[i]),
            forall|k: int|
                0 <= k < bindings@.len() ==> #[trigger] bindings@[k] == binding_of(tail[k]),
            forall|k: int|
                0 <= k < params@.len() ==> param_view(#[trigger] params@[k]) == param_of(tail[k]),
        decreases rest@.len(),
    {
        let ghost k = bindings@.len();
        let arg = rest.remove(0);
        assert(arg == tail[k as int]);
        let (b, p) = bind(arg);
        bindings.push(b);
        params.push(p);
        assert(rest@ =~= tail.skip(bindings@.len() as int));
    }
    assert(bindings@ =~= tail.map_values(|a: FnArgRepr| binding_of(a)));
    assert(params@.map_values(|p: Param| param_view(p)) =~= tail.map_values(
        |a: FnArgRepr| param_of(a),
    ));
    CommandPlan { name, bindings, params }
}

/// The parameters of a handler after the context, as their arguments are
/// read (see `param_of`).
pub open spec fn signature_params(inputs: Seq<FnArgRepr>) -> Seq<ParamView> {
    after_context(inputs).map_values(|a: FnArgRepr| param_of(a))
}

/// The views of a list of parameters.
pub open spec fn param_views(params: Seq<Param>) -> Seq<ParamView> {
    params.map_values(|p: Param| param_view(p))
}

/// What a generated handler passes for one parameter after the context.
pub enum HandlerArg<'a, V> {
    /// The shared value stored for the parameter's `Ctx` type.
    Context(&'a V),
    /// An optional argument for which no word was left.
    Absent,
    Text(String),
    Number(u32),
}

/// What a `HandlerArg` holds.
pub enum HandlerArgView<V> {
    Context(V),
    Absent,
    Text(Seq<char>),
    Number(u32),
}

/// Why a generated handler stops before it calls the command's function.
#[derive(Debug)]
pub enum HandlerError {
    /// The words do not give an argument (the handler returns this error).
    Arg(ArgError),
    /// Nothing is stored under the key of a `Ctx` parameter's type (the
    /// handler panics, naming the type).
    MissingData(u64),
}

/// What a `HandlerError` holds.
pub enum HandlerErrorView {
    Arg(ArgErrorView),
    MissingData(u64),
}

pub open spec fn handler_arg_view<V>(a: HandlerArg<V>) -> HandlerArgView<V> {
    match a {
        HandlerArg::Context(v) => HandlerArgView::Context(*v),
        HandlerArg::Absent => HandlerArgView::Absent,
        HandlerArg::Text(t) => HandlerArgView::Text(t@),
        HandlerArg::Number(n) => HandlerArgView::Number(n),
    }
}

pub open spec fn handler_error_view(e: HandlerError) -> HandlerErrorView {
    match e {
        HandlerError::Arg(a) => HandlerErrorView::Arg(a@),
        HandlerError::MissingData(k) => HandlerErrorView::MissingData(k),
    }
}

/// The view of what a generated handler reads.
pub open spec fn handler_result_view<V>(r: Result<Vec<HandlerArg<V>>, HandlerError>) -> Result<
    Seq<HandlerArgView<V>>,
    HandlerErrorView,
> {
    match r {
        Ok(v) => Ok(v@.map_values(|a: HandlerArg<V>| handler_arg_view(a))),
        Err(e) => Err(handler_error_view(e)),
    }
}

/// A word argument as the handler passes it.
pub open spec fn word_arg<V>(b: BoundView) -> HandlerArgView<V> {
    match b {
        BoundView::Text(t) => HandlerArgView::Text(t),
        BoundView::Number(n) => HandlerArgView::Number(n),
        _ => HandlerArgView::Absent,
    }
}

/// What parameter `i` of `params` receives in a generated handler, where
/// `keys[i]` is the key of its type in the command data `data` and `words`
/// are the words after the command's name: a `Ctx` parameter takes no word
/// and receives the value stored under its key (nothing stored: the handler
/// stops there); a word parameter reads the word it is owed (`word_for`).
pub open spec fn handler_outcome<V>(
    params: Seq<ParamView>,
    keys: Seq<u64>,
    data: Map<u64, V>,
    words: Seq<Seq<char>>,
    i: int,
) -> Result<HandlerArgView<V>, HandlerErrorView> {
    match params[i] {
        ParamView::Context => if data.contains_key(keys[i]) {
            Ok(HandlerArgView::Context(data[keys[i]]))
        } else {
            Err(HandlerErrorView::MissingData(keys[i]))
        },
        ParamView::Word { .. } => match outcome_at(params, words, i) {
            Ok(b) => Ok(word_arg::<V>(b)),
            Err(e) => Err(HandlerErrorView::Arg(e)),
        },
    }
}

/// Whether parameter `i` is the first one that the handler cannot fill.
pub open spec fn first_failure_at<V>(
    params: Seq<ParamView>,
    keys: Seq<u64>,
    data: Map<u64, V>,
    words: Seq<Seq<char>>,
    i: int,
) -> bool {
    &&& 0 <= i < params.len()
    &&& handler_outcome(params, keys, data, words, i) is Err
    &&& forall|j: int| 0 <= j < i ==> (#[trigger] handler_outcome(params, keys, data, words, j)) is Ok
}

/// What a generated handler reads before it calls the command's function:
/// the parameters are filled in order, and the first one that cannot be
/// filled stops the handler with its error; otherwise each parameter gets
/// its outcome.
pub open spec fn handler_spec<V>(
    params: Seq<ParamView>,
    keys: Seq<u64>,
    data: Map<u64, V>,
    words: Seq<Seq<char>>,
) -> Result<Seq<HandlerArgView<V>>, HandlerErrorView> {
    if exists|i: int| first_failure_at(params, keys, data, words, i) {
        let i = choose|i: int| first_failure_at(params, keys, data, words, i);
        Err(handler_outcome(params, keys, data, words, i)->Err_0)
    } else {
        Ok(Seq::new(params.len(), |i: int| handler_outcome(params, keys, data, words, i)->Ok_0))
    }
}

proof fn lemma_count_push(params: Seq<ParamView>, p: ParamView)
    ensures
        word_param_count(params.push(p)) == word_param_count(params) + (if p is Word {
            1nat
        } else {
            0nat
        }),
    decreases params.len(),
{
    if params.len() > 0 {
        assert(params.push(p)[0] == params[0]);
        assert(params.push(p).drop_first() =~= params.drop_first().push(p));
        lemma_count_push(params.drop_first(), p);
    } else {
        assert(params.push(p).drop_first() =~= Seq::<ParamView>::empty());
        assert(word_param_count(Seq::<ParamView>::empty()) == 0);
        assert(params.push(p)[0] == p);
    }
}

proof fn lemma_count_step(params: Seq<ParamView>, i: int)
    requires
        0 <= i < params.len(),
    ensures
        word_param_count(params.take(i + 1)) == word_param_count(params.take(i)) + (if params[i] is Word {
            1nat
        } else {
            0nat
        }),
{
    assert(params.take(i + 1) =~= params.take(i).push(params[i]));
    lemma_count_push(params.take(i), params[i]);
}

proof fn lemma_count_bound(params: Seq<ParamView>)
    ensures
        word_param_count(params) <= params.len(),
    decreases params.len(),
{
    if params.len() > 0 {
        lemma_count_bound(params.drop_first());
    }
}

proof fn lemma_first_failure_unique<V>(
    params: Seq<ParamView>,
    keys: Seq<u64>,
    data: Map<u64, V>,
    words: Seq<Seq<char>>,
    i: int,
)
    requires
        first_failure_at(params, keys, data, words, i),
    ensures
        handler_spec(params, keys, data, words) == Err::<Seq<HandlerArgView<V>>, HandlerErrorView>(
            handler_outcome(params, keys, data, words, i)->Err_0,
        ),
{
    let c = choose|c: int| first_failure_at(params, keys, data, words, c);
    assert(first_failure_at(params, keys, data, words, c));
    if c < i {
        assert(handler_outcome(params, keys, data, words, c) is Ok);
    } else if c > i {
        assert(handler_outcome(params, keys, data, words, i) is Ok);
    }
}

proof fn lemma_some_first_failure<V>(
    params: Seq<ParamView>,
    keys: Seq<u64>,
    data: Map<u64, V>,
    words: Seq<Seq<char>>,
    i: int,
)
    requires
        0 <= i < params.len(),
        handler_outcome(params, keys, data, words, i) is Err,
    ensures
        exists|f: int| first_failure_at(params, keys, data, words, f),
    decreases i,
{
    if exists|j: int| 0 <= j < i && (#[trigger] handler_outcome(params, keys, data, words, j)) is Err {
        let j = choose|j: int|
            0 <= j < i && (#[trigger] handler_outcome(params, keys, data, words, j)) is Err;
        lemma_some_first_failure(params, keys, data, words, j);
    } else {
        assert(first_failure_at(params, keys, data, words, i));
    }
}

/// The text of `word`, if there is one.
pub open spec fn word_view(word: Option<&String>) -> Option<Seq<char>> {
    match word {
        Some(w) => Some(w@),
        None => None,
    }
}

/// Reads the word parameter `p` from `word`, the word it is owed (`None`
/// when no word is left for it).
fn read_word_param(p: &Param, word: Option<&String>) -> (r: Result<BoundArg, ArgError>)
    requires
        p is Word,
    ensures
        match r {
            Ok(b) => read_param(param_view(*p), word_view(word)) == Ok::<
                BoundView,
                ArgErrorView,
            >(bound_view(b)),
            Err(e) => read_param(param_view(*p), word_view(word)) == Err::<
                BoundView,
                ArgErrorView,
            >(e@),
        },
{
    match p {
        Param::Word { name, ty, optional } => match word {
            None => if *optional {
                Ok(BoundArg::Absent)
            } else {
                Err(ArgError::Missing(name.clone()))
            },
            Some(w) => match ty {
                ArgType::Text => match <String as FromArg>::from_arg(name.as_str(), w.as_str()) {
                    Ok(t) => Ok(BoundArg::Text(t)),
                    Err(e) => Err(e),
                },
                ArgType::Number => match <u32 as FromArg>::from_arg(name.as_str(), w.as_str()) {
                    Ok(n) => Ok(BoundArg::Number(n)),
                    Err(e) => Err(e),
                },
            },
        },
        Param::Context => Ok(BoundArg::Context),
    }
}

/// Reads the arguments of the handler that `plan` describes, as the
/// generated handler does before it calls the command's function: `keys[i]`
/// is the key under which `data` stores the value of parameter `i` when it
/// is a `Ctx` parameter (ignored otherwise), and `words` are the words after
/// the command's name. Word parameters take the words in order, `Ctx`
/// parameters take none, extra words are ignored, and the first parameter
/// that cannot be filled gives the error (see `handler_spec` and
/// `law_handler_follows_signature`).
pub fn run_plan<'a, V>(
    plan: &CommandPlan,
    keys: &Vec<u64>,
    data: &'a CommandData<V>,
    words: &Vec<String>,
) -> (r: Result<Vec<HandlerArg<'a, V>>, HandlerError>)
    requires
        keys@.len() == plan.params@.len(),
    ensures
        handler_result_view(r) == handler_spec(
            param_views(plan.params@),
            keys@,
            data@,
            words@.map_values(|w: String| w@),
        ),
{
    let ghost ps = param_views(plan.params@);
    let ghost ws = words@.map_values(|w: String| w@);
    let n = plan.params.len();
    let mut out: Vec<HandlerArg<'a, V>> = Vec::new();
    let mut pos: usize = 0;
    for i in 0..n
        invariant
            n == plan.params@.len(),
            n == keys@.len(),
            ps == param_views(plan.params@),
            ws == words@.map_values(|w: String| w@),
            pos == word_param_count(ps.take(i as int)),
            pos <= i,
            out@.len() == i,
            forall|j: int|
                0 <= j < i ==> (#[trigger] handler_outcome(ps, keys@, data@, ws, j)) == Ok::<
                    HandlerArgView<V>,
                    HandlerErrorView,
                >(handler_arg_view(out@[j])),
    {
        proof {
            lemma_count_step(ps, i as int);
        }
        assert(ps[i as int] == param_view(plan.params@[i as int]));
        let a = match &plan.params[i] {
            Param::Context => match data.get(keys[i]) {
                Some(v) => HandlerArg::Context(v),
                None => {
                    proof {
                        assert(first_failure_at(ps, keys@, data@, ws, i as int));
                        lemma_first_failure_unique(ps, keys@, data@, ws, i as int);
                    }
                    return Err(HandlerError::MissingData(keys[i]));
                },
            },
            Param::Word { .. } => {
                let word = if pos < words.len() {
                    Some(&words[pos])
                } else {
                    None
                };
                assert(word_view(word) == word_for(ps, ws, i as int));
                let b = read_word_param(&plan.params[i], word);
                pos = pos + 1;
                match b {
                    Ok(BoundArg::Text(t)) => HandlerArg::Text(t),
                    Ok(BoundArg::Number(v)) => HandlerArg::Number(v),
                    Ok(_) => HandlerArg::Absent,
                    Err(e) => {
                        proof {
                            assert(first_failure_at(ps, keys@, data@, ws, i as int));
                            lemma_first_failure_unique(ps, keys@, data@, ws, i as int);
                        }
                        return Err(HandlerError::Arg(e));
                    },
                }
            },
        };
        out.push(a);
    }
    proof {
        assert forall|f: int| !first_failure_at(ps, keys@, data@, ws, f) by {
            if 0 <= f < n {
                assert(handler_outcome(ps, keys@, data@, ws, f) is Ok);
            }
        }
        assert(out@.map_values(|a: HandlerArg<'a, V>| handler_arg_view(a)) =~= Seq::new(
            n as nat,
            |j: int| handler_outcome(ps, keys@, data@, ws, j)->Ok_0,
        ));
    }
    Ok(out)
}

/// Law: the handler that `command` generates fills each parameter after the
/// context as its signature says. A `Ctx` parameter takes no word and
/// receives the value stored under the key of its type (nothing stored: the
/// handler stops there); any other parameter reads, as the type that
/// `word_type_of` gives, the k-th word, where k counts the word parameters
/// before it, and may be left out when it is an `Option`; extra words are
/// ignored. When every parameter can be filled the handler gets one
/// argument per parameter, each its outcome; otherwise it stops with the
/// error of the first parameter that cannot be filled.
pub proof fn law_handler_follows_signature<V>(
    inputs: Seq<FnArgRepr>,
    keys: Seq<u64>,
    data: Map<u64, V>,
    words: Seq<Seq<char>>,
)
    requires
        forall|i: int| 0 <= i < after_context(inputs).len() ==> supported_param(
            #[trigger] after_context(inputs)[i],
        ),
        keys.len() == after_context(inputs).len(),
    ensures
        ({
            let sig = signature_params(inputs);
            let args = after_context(inputs);
            &&& forall|i: int|
                0 <= i < args.len() ==> {
                    let arg = #[trigger] args[i];
                    let ty = arg->ty;
                    &&& word_param_count(sig.take(i + 1)) == word_param_count(sig.take(i)) + (if spec_is_ctx(ty) {
                        0nat
                    } else {
                        1nat
                    })
                    &&& spec_is_ctx(ty) ==> handler_outcome(sig, keys, data, words, i) == if data.contains_key(keys[i]) {
                        Ok(HandlerArgView::Context(data[keys[i]]))
                    } else {
                        Err(HandlerErrorView::MissingData(keys[i]))
                    }
                    &&& !spec_is_ctx(ty) ==> handler_outcome(sig, keys, data, words, i) == match read_param(
                        ParamView::Word {
                            name: arg->pat->Ident_0@,
                            ty: word_type_of(ty)->0,
                            optional: spec_is_option(ty),
                        },
                        word_for(sig, words, i),
                    ) {
                        Ok(b) => Ok(word_arg::<V>(b)),
                        Err(e) => Err(HandlerErrorView::Arg(e)),
                    }
                }
            &&& (forall|i: int| 0 <= i < args.len() ==> (#[trigger] handler_outcome(sig, keys, data, words, i)) is Ok)
                ==> handler_spec(sig, keys, data, words) == Ok::<Seq<HandlerArgView<V>>, HandlerErrorView>(
                Seq::new(args.len(), |i: int| handler_outcome(sig, keys, data, words, i)->Ok_0),
            )
            &&& forall|i: int|
                #[trigger] first_failure_at(sig, keys, data, words, i) ==> handler_spec(sig, keys, data, words)
                    == Err::<Seq<HandlerArgView<V>>, HandlerErrorView>(
                    handler_outcome(sig, keys, data, words, i)->Err_0,
                )
            &&& (exists|i: int| 0 <= i < args.len() && (#[trigger] handler_outcome(sig, keys, data, words, i)) is Err)
                ==> exists|i: int| first_failure_at(sig, keys, data, words, i)
        }),
{
    let sig = signature_params(inputs);
    let args = after_context(inputs);
    assert forall|i: int| 0 <= i < args.len() implies {
        let arg = #[trigger] args[i];
        let ty = arg->ty;
        &&& word_param_count(sig.take(i + 1)) == word_param_count(sig.take(i)) + (if spec_is_ctx(ty) {
            0nat
        } else {
            1nat
        })
        &&& spec_is_ctx(ty) ==> handler_outcome(sig, keys, data, words, i) == if data.contains_key(keys[i]) {
            Ok(HandlerArgView::Context(data[keys[i]]))
        } else {
            Err(HandlerErrorView::MissingData(keys[i]))
        }
        &&& !spec_is_ctx(ty) ==> handler_outcome(sig, keys, data, words, i) == match read_param(
            ParamView::Word {
                name: arg->pat->Ident_0@,
                ty: word_type_of(ty)->0,
                optional: spec_is_option(ty),
            },
            word_for(sig, words, i),
        ) {
            Ok(b) => Ok(word_arg::<V>(b)),
            Err(e) => Err(HandlerErrorView::Arg(e)),
        }
    } by {
        assert(supported_param(args[i]));
        assert(sig[i] == param_of(args[i]));
        lemma_count_step(sig, i);
    }
    if forall|i: int| 0 <= i < args.len() ==> (#[trigger] handler_outcome(sig, keys, data, words, i)) is Ok {
        assert forall|f: int| !first_failure_at(sig, keys, data, words, f) by {
            if 0 <= f < args.len() {
                assert(handler_outcome(sig, keys, data, words, f) is Ok);
            }
        }
    }
    assert forall|i: int| #[trigger] first_failure_at(sig, keys, data, words, i) implies handler_spec(
        sig,
        keys,
        data,
        words,
    ) == Err::<Seq<HandlerArgView<V>>, HandlerErrorView>(
        handler_outcome(sig, keys, data, words, i)->Err_0,
    ) by {
        lemma_first_failure_unique(sig, keys, data, words, i);
    }
    if exists|i: int| 0 <= i < args.len() && (#[trigger] handler_outcome(sig, keys, data, words, i)) is Err {
        let i = choose|i: int|
            0 <= i < args.len() && (#[trigger] handler_outcome(sig, keys, data, words, i)) is Err;
        lemma_some_first_failure(sig, keys, data, words, i);
    }
}

/// Law: a parameter whose type is `Ctx<T, ..>` (a path whose last segment
/// is `Ctx` with a type as its first argument) is accepted whatever its
/// pattern, such as `Ctx(value)`; only a parameter of any other type must
/// be a plain name.
pub proof fn law_ctx_parameter_takes_any_pattern(
    pat: PatRepr,
    segs: Vec<PathSegment>,
    args: Vec<GenericArgument>,
    inner: TypeRepr,
)
    requires
        segs@.len() > 0,
        segs@.last().ident@ == "Ctx"@,
        segs@.last().arguments == PathArguments::AngleBracketed(args),
        args@.len() > 0,
        args@[0] == GenericArgument::Type(inner),
    ensures
        supported_param(FnArgRepr::Typed { pat, ty: TypeRepr::Path(segs) }),
        param_of(FnArgRepr::Typed { pat, ty: TypeRepr::Path(segs) }) == ParamView::Context,
{
}

/// Law: a parameter that is not `Ctx` and is not a plain name is refused.
pub proof fn law_word_parameter_needs_a_name(ty: TypeRepr)
    requires
        !spec_is_ctx(ty),
    ensures
        !supported_param(FnArgRepr::Typed { pat: PatRepr::Other, ty }),
{
}

} // verus!
