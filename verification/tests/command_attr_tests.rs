use matrix_osu_bot::command_attr::{
    arg_type, command, ctx_inner_type, is_ctx, is_option, run_plan, signature_supported,
    word_type, ArgBinding, FnArgRepr, GenericArgument, HandlerArg, HandlerError, PathArguments,
    PathSegment, PatRepr, TypeRepr,
};
use matrix_osu_bot::commands::{ArgError, ArgType, CommandData, CommandDataBuilder, Param};

fn path(segments: &[&str]) -> TypeRepr {
    TypeRepr::Path(
        segments
            .iter()
            .map(|s| PathSegment { ident: s.to_string(), arguments: PathArguments::NoArguments })
            .collect(),
    )
}

fn generic(outer: &str, inner: TypeRepr) -> TypeRepr {
    TypeRepr::Path(vec![PathSegment {
        ident: outer.to_string(),
        arguments: PathArguments::AngleBracketed(vec![GenericArgument::Type(inner)]),
    }])
}

fn typed(name: &str, ty: TypeRepr) -> FnArgRepr {
    FnArgRepr::Typed { pat: PatRepr::Ident(name.to_string()), ty }
}

#[test]
fn recognises_ctx_and_option() {
    let ctx = generic("Ctx", path(&["OsuClient"]));
    assert!(is_ctx(&ctx));
    assert!(!is_option(&ctx));
    assert!(is_option(&generic("Option", path(&["u32"]))));
    assert!(!is_ctx(&path(&["String"])));
    assert!(!is_ctx(&TypeRepr::Other));
    assert!(is_ctx(&path(&["crate", "commands", "Ctx"])));
    match ctx_inner_type(&ctx) {
        Some(TypeRepr::Path(segs)) => assert_eq!(segs[0].ident, "OsuClient"),
        _ => panic!(),
    }
    assert!(ctx_inner_type(&path(&["Ctx"])).is_none());
    assert!(ctx_inner_type(&path(&["String"])).is_none());
}

#[test]
fn plans_the_sas_command() {
    let inputs = vec![
        typed("ctx", path(&["CommandContext"])),
        typed("decision", path(&["String"])),
        FnArgRepr::Typed { pat: PatRepr::Other, ty: generic("Ctx", path(&["OwnedUserId"])) },
        typed("page", generic("Option", path(&["u32"]))),
    ];
    let plan = command("sas".to_string(), inputs);
    assert_eq!(plan.name, "sas");
    assert_eq!(plan.bindings.len(), 3);
    assert!(matches!(&plan.bindings[0], ArgBinding::Required(n) if n == "decision"));
    match &plan.bindings[1] {
        ArgBinding::Context(TypeRepr::Path(segs)) => assert_eq!(segs[0].ident, "OwnedUserId"),
        _ => panic!(),
    }
    assert!(matches!(&plan.bindings[2], ArgBinding::Optional(n) if n == "page"));
    assert_eq!(command("james".to_string(), Vec::new()).bindings.len(), 0);
}

fn user_signature() -> Vec<FnArgRepr> {
    vec![
        typed("ctx", path(&["CommandContext"])),
        typed("username", path(&["String"])),
        typed("osu_client", generic("Ctx", path(&["OsuClient"]))),
    ]
}

fn data_with(key: u64, value: &str) -> CommandData<String> {
    let mut builder = CommandDataBuilder::new();
    builder.add(key, value.to_string());
    builder.build()
}

fn words(ws: &[&str]) -> Vec<String> {
    ws.iter().map(|w| w.to_string()).collect()
}

#[test]
fn plan_params_follow_the_signature() {
    let plan = command("user".to_string(), user_signature());
    assert_eq!(plan.params.len(), 2);
    assert!(matches!(&plan.params[0],
        Param::Word { name, ty: ArgType::Text, optional: false } if name == "username"));
    assert!(matches!(&plan.params[1], Param::Context));
    let page = vec![typed("ctx", path(&["C"])), typed("page", generic("Option", path(&["u32"])))];
    let plan = command("top".to_string(), page);
    assert!(matches!(&plan.params[0],
        Param::Word { name, ty: ArgType::Number, optional: true } if name == "page"));
}

#[test]
fn reads_words_in_order_and_fills_context() {
    let plan = command("user".to_string(), user_signature());
    let data = data_with(7, "client");
    let args = run_plan(&plan, &vec![0, 7], &data, &words(&["peppy", "extra"])).unwrap();
    assert_eq!(args.len(), 2);
    assert!(matches!(&args[0], HandlerArg::Text(t) if t == "peppy"));
    assert!(matches!(args[1], HandlerArg::Context(v) if v == "client"));
}

#[test]
fn missing_word_is_reported_before_missing_data() {
    let plan = command("user".to_string(), user_signature());
    let data = data_with(9, "other");
    let r = run_plan(&plan, &vec![0, 7], &data, &Vec::new());
    assert!(matches!(r, Err(HandlerError::Arg(ArgError::Missing(n))) if n == "username"));
}

#[test]
fn missing_data_stops_the_handler() {
    let plan = command("user".to_string(), user_signature());
    let data = data_with(9, "other");
    let r = run_plan(&plan, &vec![0, 7], &data, &words(&["peppy"]));
    assert!(matches!(r, Err(HandlerError::MissingData(7))));
}

#[test]
fn context_before_a_bad_word_stops_first() {
    let inputs = vec![
        typed("ctx", path(&["C"])),
        typed("client", generic("Ctx", path(&["OsuClient"]))),
        typed("page", path(&["u32"])),
    ];
    let plan = command("top".to_string(), inputs);
    let empty: CommandData<String> = CommandDataBuilder::new().build();
    let r = run_plan(&plan, &vec![3, 0], &empty, &words(&["x"]));
    assert!(matches!(r, Err(HandlerError::MissingData(3))));
    let data = data_with(3, "client");
    let r = run_plan(&plan, &vec![3, 0], &data, &words(&["x"]));
    assert!(matches!(r, Err(HandlerError::Arg(ArgError::Parse(n, _))) if n == "page"));
    let args = run_plan(&plan, &vec![3, 0], &data, &words(&["42"])).unwrap();
    assert!(matches!(args[1], HandlerArg::Number(42)));
}

#[test]
fn optional_word_may_be_left_out() {
    let inputs = vec![
        typed("ctx", path(&["C"])),
        typed("page", generic("Option", path(&["u32"]))),
        typed("mode", generic("Option", path(&["String"]))),
    ];
    let plan = command("top".to_string(), inputs);
    let empty: CommandData<String> = CommandDataBuilder::new().build();
    let args = run_plan(&plan, &vec![0, 0], &empty, &words(&["5"])).unwrap();
    assert!(matches!(args[0], HandlerArg::Number(5)));
    assert!(matches!(args[1], HandlerArg::Absent));
}

#[test]
fn supported_signatures() {
    assert!(signature_supported(&user_signature()));
    assert!(signature_supported(&Vec::new()));
    let receiver = vec![typed("ctx", path(&["C"])), FnArgRepr::Receiver];
    assert!(!signature_supported(&receiver));
    let float = vec![typed("ctx", path(&["C"])), typed("x", path(&["f64"]))];
    assert!(!signature_supported(&float));
    let bare_ctx = vec![typed("ctx", path(&["C"])), typed("c", path(&["Ctx"]))];
    assert!(!signature_supported(&bare_ctx));
    let pattern = vec![
        typed("ctx", path(&["C"])),
        FnArgRepr::Typed { pat: PatRepr::Other, ty: path(&["String"]) },
    ];
    assert!(!signature_supported(&pattern));
}

#[test]
fn word_types() {
    assert_eq!(arg_type(&path(&["String"])), Some(ArgType::Text));
    assert_eq!(arg_type(&path(&["std", "string", "String"])), Some(ArgType::Text));
    assert_eq!(arg_type(&path(&["u32"])), Some(ArgType::Number));
    assert_eq!(arg_type(&generic("Option", path(&["u32"]))), None);
    assert_eq!(word_type(&generic("Option", path(&["u32"]))), Some(ArgType::Number));
    assert_eq!(word_type(&generic("Option", path(&["Option"]))), None);
    assert_eq!(word_type(&TypeRepr::Other), None);
}
