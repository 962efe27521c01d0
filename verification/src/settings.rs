//! The bot's settings: where its data lives, how it reaches its homeserver and
//! the osu! API, and the prefix that marks commands.
use vstd::prelude::*;

use crate::numbers::{parse_u64, parse_unsigned, IntErrorKind};
use crate::text::{chars_of, push_str};

verus! {

/// `base` with the path `component` appended, as `Path::join` does it on
/// Unix: an absolute `component` replaces `base`; otherwise a `/` goes
/// between them unless `base` is empty or already ends with one.
pub open spec fn join_path(base: Seq<char>, component: Seq<char>) -> Seq<char> {
    if component.len() > 0 && component[0] == '/' {
        component
    } else if base.len() == 0 || base.last() == '/' {
        base + component
    } else {
        base + seq!['/'] + component
    }
}

/// `base` joined with `component` (see `join_path`).
pub fn join(base: &str, component: &str) -> (r: String)
    ensures
        r@ == join_path(base@, component@),
{
    let c = chars_of(component);
    if c.len() > 0 && c[0] == '/' {
        return component.to_owned();
    }
    let b = chars_of(base);
    let mut out = String::new();
    push_str(&mut out, base);
    if b.len() > 0 && b[b.len() - 1] != '/' {
        push_str(&mut out, "/");
        proof {
            reveal_strlit("/");
        }
    }
    push_str(&mut out, component);
    assert(out@ =~= join_path(base@, component@));
    out
}

/// How the bot reaches its homeserver, and where it keeps its data.
#[derive(Debug)]
pub struct MatrixSettings {
    pub data_directory: String,
    pub homeserver: String,
    pub database_passphrase: String,
    pub username: String,
    pub password: String,
    /// The Matrix user ID of the bot's admin (e.g. `@you:matrix.org`).
    /// Verification requests and emoji confirmations are restricted to this user.
    pub admin_user_id: String,
}

impl MatrixSettings {
    /// The file that holds the saved login session: `session` in the data
    /// directory.
    pub fn session_file(&self) -> (r: String)
        ensures
            r@ == join_path(self.data_directory@, "session"@),
    {
        join(self.data_directory.as_str(), "session")
    }

    /// The directory of the client's store: `database` in the data directory.
    pub fn database_directory(&self) -> (r: String)
        ensures
            r@ == join_path(self.data_directory@, "database"@),
    {
        join(self.data_directory.as_str(), "database")
    }
}

/// The pieces of `p` between `/` characters, empty ones included.
pub open spec fn path_segments(p: Seq<char>) -> Seq<Seq<char>>
    decreases p.len(),
{
    if p.len() == 0 {
        seq![Seq::empty()]
    } else {
        let s = path_segments(p.drop_last());
        if p.last() == '/' {
            s.push(Seq::empty())
        } else {
            s.update(s.len() - 1, s.last().push(p.last()))
        }
    }
}

/// The pieces that name a component: empty pieces and `.` are left out.
pub open spec fn kept_pieces(s: Seq<Seq<char>>) -> Seq<Seq<char>>
    decreases s.len(),
{
    if s.len() == 0 {
        Seq::empty()
    } else if s.last().len() == 0 || s.last() == seq!['.'] {
        kept_pieces(s.drop_last())
    } else {
        kept_pieces(s.drop_last()).push(s.last())
    }
}

/// The components of the path `p`, as `Path::components` gives them on
/// Unix: the root (written `/`) if `p` starts with `/`, else the first piece
/// if it is not empty (a leading `.` stays); then every later piece that is
/// neither empty nor `.`.
pub open spec fn path_components(p: Seq<char>) -> Seq<Seq<char>> {
    let segs = path_segments(p);
    let head: Seq<Seq<char>> = if p.len() > 0 && p[0] == '/' {
        seq![seq!['/']]
    } else if segs[0].len() > 0 {
        seq![segs[0]]
    } else {
        Seq::empty()
    };
    head + kept_pieces(segs.skip(1))
}

proof fn lemma_segments_nonempty(p: Seq<char>)
    ensures
        path_segments(p).len() >= 1,
    decreases p.len(),
{
    if p.len() > 0 {
        lemma_segments_nonempty(p.drop_last());
    }
}

proof fn lemma_segments_no_slash(c: Seq<char>)
    requires
        forall|i: int| 0 <= i < c.len() ==> #[trigger] c[i] != '/',
    ensures
        path_segments(c) == seq![c],
    decreases c.len(),
{
    if c.len() > 0 {
        let p = c.drop_last();
        assert forall|i: int| 0 <= i < p.len() implies #[trigger] p[i] != '/' by {
            assert(p[i] == c[i]);
        }
        lemma_segments_no_slash(p);
        assert(c[c.len() - 1] != '/');
        assert(p.push(c.last()) =~= c);
        assert(path_segments(c) =~= seq![c]);
    } else {
        assert(c =~= Seq::<char>::empty());
        assert(path_segments(c) =~= seq![c]);
    }
}

proof fn lemma_segments_after_slash(a: Seq<char>, b: Seq<char>)
    ensures
        path_segments(a.push('/') + b) == path_segments(a) + path_segments(b),
    decreases b.len(),
{
    lemma_segments_nonempty(a);
    lemma_segments_nonempty(b);
    let x = a.push('/') + b;
    if b.len() == 0 {
        assert(x =~= a.push('/'));
        assert(a.push('/').drop_last() =~= a);
        assert(path_segments(a) + path_segments(b) =~= path_segments(a).push(Seq::empty()));
    } else {
        assert(x.drop_last() =~= a.push('/') + b.drop_last());
        assert(x.last() == b.last());
        lemma_segments_after_slash(a, b.drop_last());
        lemma_segments_nonempty(b.drop_last());
        let sa = path_segments(a);
        let sb = path_segments(b.drop_last());
        if b.last() == '/' {
            assert((sa + sb).push(Seq::empty()) =~= sa + sb.push(Seq::empty()));
        } else {
            let sab = sa + sb;
            assert(sab.last() == sb.last());
            assert(sab.update(sab.len() - 1, sab.last().push(b.last())) =~= sa + sb.update(
                sb.len() - 1,
                sb.last().push(b.last()),
            ));
        }
    }
}

/// Law: joining a directory with a component `c` (not empty, not `.`, and
/// without `/`) gives a path whose components are those of the directory
/// followed by `c`: it lies inside the directory, it has one more
/// component, and its file name is `c`.
pub proof fn law_join_adds_one_component(d: Seq<char>, c: Seq<char>)
    requires
        c.len() > 0,
        c != seq!['.'],
        forall|i: int| 0 <= i < c.len() ==> #[trigger] c[i] != '/',
    ensures
        path_components(join_path(d, c)) == path_components(d).push(c),
        path_components(join_path(d, c)).len() == path_components(d).len() + 1,
        path_components(join_path(d, c)).last() == c,
{
    let r = join_path(d, c);
    lemma_segments_no_slash(c);
    assert(c[0] != '/');
    if d.len() == 0 {
        assert(r =~= c);
        assert(path_segments(d) =~= seq![Seq::<char>::empty()]);
        assert(path_segments(d).skip(1) =~= Seq::<Seq<char>>::empty());
        assert(path_segments(r).skip(1) =~= Seq::<Seq<char>>::empty());
        assert(path_components(d) =~= Seq::<Seq<char>>::empty());
        assert(path_components(r) =~= seq![c]);
    } else if d.last() == '/' {
        let a = d.drop_last();
        assert(a.push('/') =~= d);
        assert(r =~= a.push('/') + c);
        lemma_segments_after_slash(a, c);
        lemma_segments_after_slash(a, Seq::empty());
        assert(a.push('/') + Seq::<char>::empty() =~= d);
        assert(path_segments(Seq::<char>::empty()) =~= seq![Seq::<char>::empty()]);
        lemma_segments_nonempty(a);
        let sa = path_segments(a);
        assert(path_segments(d) =~= sa.push(Seq::empty()));
        assert(path_segments(r) =~= sa.push(c));
        assert(path_segments(d).skip(1) =~= sa.skip(1).push(Seq::empty()));
        assert(path_segments(r).skip(1) =~= sa.skip(1).push(c));
        assert(sa.skip(1).push(Seq::<char>::empty()).drop_last() =~= sa.skip(1));
        assert(sa.skip(1).push(c).drop_last() =~= sa.skip(1));
        assert(r[0] == d[0]);
        assert(path_components(r) =~= path_components(d).push(c));
    } else {
        assert(r =~= d.push('/') + c);
        lemma_segments_after_slash(d, c);
        lemma_segments_nonempty(d);
        let sd = path_segments(d);
        assert(path_segments(r) =~= sd.push(c));
        assert(path_segments(r).skip(1) =~= sd.skip(1).push(c));
        assert(sd.skip(1).push(c).drop_last() =~= sd.skip(1));
        assert(r[0] == d[0]);
        assert(path_components(r) =~= path_components(d).push(c));
    }
}

/// Law: the session file and the store directory are distinct paths inside
/// the data directory, each one component below it, named `session` and
/// `database`.
pub proof fn law_session_and_database_are_distinct(data_directory: Seq<char>)
    ensures
        join_path(data_directory, "session"@) != join_path(data_directory, "database"@),
        join_path(data_directory, "session"@).take(data_directory.len() as int) == data_directory,
        join_path(data_directory, "database"@).take(data_directory.len() as int) == data_directory,
        path_components(join_path(data_directory, "session"@)) == path_components(
            data_directory,
        ).push("session"@),
        path_components(join_path(data_directory, "database"@)) == path_components(
            data_directory,
        ).push("database"@),
{
    reveal_strlit("session");
    reveal_strlit("database");
    let s = join_path(data_directory, "session"@);
    let d = join_path(data_directory, "database"@);
    assert(s[s.len() - 1] == 'n');
    assert(d[d.len() - 1] == 'e');
    assert(s.take(data_directory.len() as int) =~= data_directory);
    assert(d.take(data_directory.len() as int) =~= data_directory);
    assert("session"@ != seq!['.']) by {
        assert("session"@.len() != 1);
    }
    assert("database"@ != seq!['.']) by {
        assert("database"@.len() != 1);
    }
    law_join_adds_one_component(data_directory, "session"@);
    law_join_adds_one_component(data_directory, "database"@);
}

/// The osu! API credentials and the command prefix.
#[derive(Debug, Clone)]
pub struct Settings {
    pub osu_client_id: u64,
    pub osu_client_secret: String,
    pub command_prefix: String,
}

impl Settings {
    /// Settings from their textual values; the client ID must be a `u64` in
    /// decimal, else the error says why it is not.
    pub fn new(osu_client_id: &str, osu_client_secret: String, command_prefix: String) -> (r: Result<
        Settings,
        IntErrorKind,
    >)
        ensures
            match r {
                Ok(s) => {
                    &&& parse_unsigned(osu_client_id@, u64::MAX as nat) == Ok::<nat, IntErrorKind>(
                        s.osu_client_id as nat,
                    )
                    &&& s.osu_client_secret@ == osu_client_secret@
                    &&& s.command_prefix@ == command_prefix@
                },
                Err(e) => parse_unsigned(osu_client_id@, u64::MAX as nat) == Err::<nat, IntErrorKind>(e),
            },
    {
        match parse_u64(osu_client_id) {
            Ok(id) => Ok(Settings { osu_client_id: id, osu_client_secret, command_prefix }),
            Err(e) => Err(e),
        }
    }
}

} // verus!
