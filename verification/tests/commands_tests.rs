use matrix_osu_bot::commands::{bind_args, handles_message, ArgType, BoundArg, Param};
use matrix_osu_bot::commands::{
    dispatch, sas_reply, ArgError, Args, CommandData, CommandDataBuilder, Ctx, FromArg,
};

fn names(list: &[&str]) -> Vec<String> {
    list.iter().map(|s| s.to_string()).collect()
}

#[test]
fn data_get_returns_what_was_added() {
    let mut b: CommandDataBuilder<String> = CommandDataBuilder::new();
    b.add(1, "osu".to_string());
    b.add(2, "admin".to_string());
    b.add(1, "osu client".to_string());
    let data: CommandData<String> = b.build();
    assert_eq!(data.get(1).map(String::as_str), Some("osu client"));
    assert_eq!(data.get(2).map(String::as_str), Some("admin"));
    assert_eq!(data.get(3), None);
    let copy = data.clone();
    assert_eq!(copy.get(2).map(String::as_str), Some("admin"));
    let empty: CommandData<u32> = CommandData::default();
    assert_eq!(empty.get(0), None);
    let ctx = Ctx(5u32);
    assert_eq!(ctx.0, 5);
}

#[test]
fn from_arg_string_and_u32() {
    assert_eq!(String::from_arg("name", "bob").unwrap(), "bob");
    assert_eq!(u32::from_arg("count", "42").unwrap(), 42);
    match u32::from_arg("count", "4x") {
        Err(ArgError::Parse(n, m)) => {
            assert_eq!(n, "count");
            assert_eq!(m, "invalid digit found in string");
        }
        _ => panic!("expected a parse error"),
    }
    let e = u32::from_arg("count", "").unwrap_err();
    assert_eq!(e.message(), "invalid value for `count`: cannot parse integer from empty string");
    assert_eq!(Option::<u32>::from_arg("n", "9").unwrap(), Some(9));
    assert!(Option::<u32>::from_arg("n", "-9").is_err());
}

#[test]
fn arg_error_messages() {
    assert_eq!(ArgError::Missing("username".to_string()).message(), "missing required argument `username`");
    assert_eq!(
        ArgError::Parse("id".to_string(), "bad".to_string()).message(),
        "invalid value for `id`: bad"
    );
}

#[test]
fn args_are_read_in_order() {
    let mut args = Args::new(names(&["bob", "12"]));
    let user: String = args.next_required("username").unwrap();
    let count: Option<u32> = args.next_optional("count").unwrap();
    let more: Option<u32> = args.next_optional("more").unwrap();
    assert_eq!(user, "bob");
    assert_eq!(count, Some(12));
    assert_eq!(more, None);
    match args.next_required::<String>("decision") {
        Err(ArgError::Missing(n)) => assert_eq!(n, "decision"),
        _ => panic!("expected a missing argument"),
    }
}

#[test]
fn dispatch_picks_first_command_with_the_name() {
    let cmds = names(&["james", "user", "sas", "user"]);
    let (i, args) = dispatch("!", "  !user   bob  extra \n", &cmds).unwrap();
    assert_eq!(i, 1);
    assert_eq!(args, names(&["bob", "extra"]));
    let (i, args) = dispatch("!", "!james", &cmds).unwrap();
    assert_eq!((i, args.len()), (0, 0));
}

#[test]
fn dispatch_ignores_other_messages() {
    let cmds = names(&["james", "user"]);
    assert!(dispatch("!", "hello !user bob", &cmds).is_none());
    assert!(dispatch("!", "!unknown", &cmds).is_none());
    assert!(dispatch("!", "!", &cmds).is_none());
    assert!(dispatch("!", "", &cmds).is_none());
    assert!(dispatch("osu ", "osu user x", &cmds).is_some());
    assert!(dispatch("!", "! user x", &cmds).is_some());
}

#[test]
fn dispatch_name_follows_prefix_directly() {
    let cmds = names(&["", "user"]);
    let (i, args) = dispatch("!", "!", &cmds).unwrap();
    assert_eq!((i, args.len()), (0, 0));
}

#[test]
fn sas_reply_only_from_admin() {
    assert_eq!(sas_reply("@admin:x", "@admin:x", "yes"), Some(true));
    assert_eq!(sas_reply("@admin:x", "@admin:x", "no"), Some(false));
    assert_eq!(sas_reply("@admin:x", "@admin:x", "maybe"), None);
    assert_eq!(sas_reply("@other:x", "@admin:x", "yes"), None);
    assert_eq!(sas_reply("@admin:x", "@admin:x", "YES"), None);
}

fn word(name: &str, ty: ArgType, optional: bool) -> Param {
    Param::Word { name: name.to_string(), ty, optional }
}

#[test]
fn bind_args_reads_words_in_order() {
    let params = vec![
        word("username", ArgType::Text, false),
        Param::Context,
        word("count", ArgType::Number, true),
        word("page", ArgType::Number, true),
    ];
    let bound = bind_args(&params, names(&["bob", "12", "3", "ignored"])).unwrap();
    assert_eq!(
        bound,
        vec![BoundArg::Text("bob".to_string()), BoundArg::Context, BoundArg::Number(12), BoundArg::Number(3)]
    );
    let bound = bind_args(&params, names(&["bob"])).unwrap();
    assert_eq!(bound, vec![BoundArg::Text("bob".to_string()), BoundArg::Context, BoundArg::Absent, BoundArg::Absent]);
}

#[test]
fn bind_args_reports_first_failing_parameter() {
    let params = vec![
        word("count", ArgType::Number, false),
        Param::Context,
        word("name", ArgType::Text, false),
    ];
    match bind_args(&params, Vec::new()) {
        Err(ArgError::Missing(n)) => assert_eq!(n, "count"),
        other => panic!("{other:?}"),
    }
    match bind_args(&params, names(&["x"])) {
        Err(ArgError::Parse(n, m)) => {
            assert_eq!(n, "count");
            assert_eq!(m, "invalid digit found in string");
        }
        other => panic!("{other:?}"),
    }
    match bind_args(&params, names(&["7"])) {
        Err(ArgError::Missing(n)) => assert_eq!(n, "name"),
        other => panic!("{other:?}"),
    }
}

#[test]
fn get_returns_last_added_over_many_adds() {
    let adds = [(3u64, 1u32), (5, 2), (3, 4), (9, 8), (5, 6)];
    let mut b: CommandDataBuilder<u32> = CommandDataBuilder::default();
    for (k, v) in adds {
        b.add(k, v);
    }
    let data = b.build().clone();
    assert_eq!(data.get(3), Some(&4));
    assert_eq!(data.get(5), Some(&6));
    assert_eq!(data.get(9), Some(&8));
    assert_eq!(data.get(4), None);
}

#[test]
fn only_text_messages_in_joined_rooms_are_handled() {
    assert!(handles_message(true, true));
    assert!(!handles_message(false, true));
    assert!(!handles_message(true, false));
    assert!(!handles_message(false, false));
}
