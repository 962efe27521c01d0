use matrix_osu_bot::user_embed::{create_user_embed, UserProfile, UserStatistics};

#[test]
fn full_profile_embed() {
    let user = UserProfile {
        user_id: 4787150,
        username: "tsunyoku".to_string(),
        country_code: "GB".to_string(),
        statistics: Some(UserStatistics {
            pp: 12345,
            global_rank: Some(1234),
            country_rank: Some(56),
            accuracy: "98.76".to_string(),
            playcount: 123456,
            playtime: 7_200_000,
        }),
        highest_rank: Some(999),
    };
    let e = create_user_embed(&user);
    assert_eq!(
        e.to_plain(),
        "tsunyoku: 12,345pp (#1,234 GB56) \u{2014} Accuracy: 98.76% | Playcount: 123,456 (2,000 hours) | Peak rank: #999"
    );
    assert!(e.to_html().ends_with("<br><a href=\"https://osu.ppy.sh/users/4787150\">View Profile</a></blockquote>"));
}

#[test]
fn profile_without_statistics() {
    let user = UserProfile {
        user_id: 2,
        username: "peppy".to_string(),
        country_code: "AU".to_string(),
        statistics: None,
        highest_rank: None,
    };
    assert_eq!(
        create_user_embed(&user).to_plain(),
        "peppy: 0pp (#0 AU0) \u{2014} Accuracy: 0.00% | Playcount: 0 (0 hours) | Peak rank: #0"
    );
}
