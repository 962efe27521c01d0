//! The embed that shows an osu! player's profile.
use vstd::prelude::*;

use crate::embed::{EmbedBuilder, EmbedView};
use crate::numbers::{decimal, grouped, push_decimal, push_grouped};
use crate::text::push_str;

verus! {

/// A player's statistics, as the embed shows them.
pub struct UserStatistics {
    /// Performance points, as a whole number.
    pub pp: u32,
    pub global_rank: Option<u32>,
    pub country_rank: Option<u32>,
    /// Hit accuracy in percent, written with two decimals (as `98.76`).
    pub accuracy: String,
    pub playcount: u32,
    /// Play time in seconds.
    pub playtime: u32,
}

/// A player's profile, as the embed shows it.
pub struct UserProfile {
    pub user_id: u32,
    pub username: String,
    pub country_code: String,
    pub statistics: Option<UserStatistics>,
    /// The best global rank the player has held.
    pub highest_rank: Option<u32>,
}

/// `o`, or `0` when it is missing.
pub open spec fn or_zero(o: Option<u32>) -> nat {
    match o {
        Some(v) => v as nat,
        None => 0,
    }
}

pub open spec fn profile_pp(u: &UserProfile) -> nat {
    match u.statistics {
        Some(s) => s.pp as nat,
        None => 0,
    }
}

pub open spec fn profile_global_rank(u: &UserProfile) -> nat {
    match u.statistics {
        Some(s) => or_zero(s.global_rank),
        None => 0,
    }
}

pub open spec fn profile_country_rank(u: &UserProfile) -> nat {
    match u.statistics {
        Some(s) => or_zero(s.country_rank),
        None => 0,
    }
}

pub open spec fn profile_accuracy(u: &UserProfile) -> Seq<char> {
    match u.statistics {
        Some(s) => s.accuracy@,
        None => "0.00"@,
    }
}

pub open spec fn profile_playcount(u: &UserProfile) -> nat {
    match u.statistics {
        Some(s) => s.playcount as nat,
        None => 0,
    }
}

/// Whole hours of play time.
pub open spec fn profile_play_hours(u: &UserProfile) -> nat {
    match u.statistics {
        Some(s) => (s.playtime as nat) / 3600,
        None => 0,
    }
}

/// The title: `name: PPpp (#RANK CCCOUNTRY_RANK)`, numbers grouped.
pub open spec fn user_title(u: &UserProfile) -> Seq<char> {
    u.username@ + ": "@ + grouped(profile_pp(u)) + "pp (#"@ + grouped(profile_global_rank(u)) + " "@
        + u.country_code@ + grouped(profile_country_rank(u)) + ")"@
}

/// The whole embed of a profile.
pub open spec fn user_embed(u: &UserProfile) -> EmbedView {
    EmbedView {
        title: user_title(u),
        fields: seq![
            ("Accuracy"@, profile_accuracy(u) + "%"@),
            ("Playcount"@, grouped(profile_playcount(u)) + " ("@ + grouped(profile_play_hours(u)) + " hours)"@),
            ("Peak rank"@, "#"@ + grouped(or_zero(u.highest_rank))),
        ],
        url: Some("https://osu.ppy.sh/users/"@ + decimal(u.user_id as nat)),
        url_text: Some("View Profile"@),
    }
}

fn opt_or_zero(o: Option<u32>) -> (r: u64)
    ensures
        r == or_zero(o),
{
    match o {
        Some(v) => v as u64,
        None => 0,
    }
}

/// The embed that shows the profile `user`.
pub fn create_user_embed(user: &UserProfile) -> (r: EmbedBuilder)
    ensures
        r@ == user_embed(user),
{
    let (pp, global_rank, country_rank, playcount, play_hours): (u64, u64, u64, u64, u64) =
        match &user.statistics {
        Some(s) => (
            s.pp as u64,
            opt_or_zero(s.global_rank),
            opt_or_zero(s.country_rank),
            s.playcount as u64,
            (s.playtime / 3600) as u64,
        ),
        None => (0, 0, 0, 0, 0),
    };
    let mut title = String::new();
    push_str(&mut title, user.username.as_str());
    push_str(&mut title, ": ");
    push_grouped(&mut title, pp);
    push_str(&mut title, "pp (#");
    push_grouped(&mut title, global_rank);
    push_str(&mut title, " ");
    push_str(&mut title, user.country_code.as_str());
    push_grouped(&mut title, country_rank);
    push_str(&mut title, ")");
    assert(title@ =~= user_title(user));

    let mut accuracy = String::new();
    match &user.statistics {
        Some(s) => push_str(&mut accuracy, s.accuracy.as_str()),
        None => push_str(&mut accuracy, "0.00"),
    }
    push_str(&mut accuracy, "%");
    assert(accuracy@ =~= profile_accuracy(user) + "%"@);

    let mut plays = String::new();
    push_grouped(&mut plays, playcount);
    push_str(&mut plays, " (");
    push_grouped(&mut plays, play_hours);
    push_str(&mut plays, " hours)");
    assert(plays@ =~= grouped(profile_playcount(user)) + " ("@ + grouped(profile_play_hours(user))
        + " hours)"@);

    let mut peak = String::new();
    push_str(&mut peak, "#");
    push_grouped(&mut peak, opt_or_zero(user.highest_rank));
    assert(peak@ =~= "#"@ + grouped(or_zero(user.highest_rank)));

    let mut url = String::new();
    push_str(&mut url, "https://osu.ppy.sh/users/");
    push_decimal(&mut url, user.user_id as u64);
    assert(url@ =~= "https://osu.ppy.sh/users/"@ + decimal(user.user_id as nat));

    let r = EmbedBuilder::with_title(title).field("Accuracy".to_owned(), accuracy).field(
        "Playcount".to_owned(),
        plays,
    ).field("Peak rank".to_owned(), peak).url(url).url_text("View Profile".to_owned());
    assert(r@.fields =~= user_embed(user).fields);
    r
}

/// Law: the global rank in the title is the one in the statistics, or 0
/// when there are no statistics or no rank in them; the best rank the
/// player has held has no part in it.
pub proof fn law_title_shows_current_global_rank(u: &UserProfile)
    ensures
        profile_global_rank(u) == match u.statistics {
            Some(s) => match s.global_rank {
                Some(g) => g as nat,
                None => 0nat,
            },
            None => 0nat,
        },
        user_title(u) == u.username@ + ": "@ + grouped(profile_pp(u)) + "pp (#"@ + grouped(
            profile_global_rank(u),
        ) + " "@ + u.country_code@ + grouped(profile_country_rank(u)) + ")"@,
{
}

/// Law: two profiles that differ only in the best rank held get the same
/// title.
pub proof fn law_title_ignores_peak_rank(u: &UserProfile, v: &UserProfile)
    requires
        u.username@ == v.username@,
        u.country_code@ == v.country_code@,
        u.statistics == v.statistics,
    ensures
        user_title(u) == user_title(v),
{
}

} // verus!
