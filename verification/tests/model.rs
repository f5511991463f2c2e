use timewise::model::{
    Category, GoalConfig, SessionRecord, Thresholds, TodBucket, TodDistribution, UsageTotals,
};

#[test]
fn category_roundtrip() {
    for c in Category::ALL {
        let s = c.as_str();
        assert_eq!(Category::from_str(s).unwrap(), c);
    }
    assert_eq!(Category::from_str("SocialMedia").unwrap(), Category::SocialMedia);
    assert!(Category::from_str("Nope").is_err());
}

#[test]
fn category_names_are_exact() {
    assert_eq!(Category::SocialMedia.as_str(), "Social Media");
    assert_eq!(Category::from_stored("Games"), Category::Games);
    assert_eq!(Category::from_stored("games"), Category::Other);
    assert_eq!(Category::from_stored(""), Category::Other);
    assert_eq!(Category::ALL.len(), 7);
}

#[test]
fn defaults() {
    assert_eq!(Thresholds::default(), Thresholds { nudge_pct: 90, limit_pct: 100, over_pct: 110 });
    assert_eq!(GoalConfig::default(), GoalConfig { daily_min: None, weekly_min: None });
    assert_eq!(UsageTotals::default(), UsageTotals { today_s: 0, week_s: 0 });
    assert_eq!(TodDistribution::default().night_s, 0);
    assert_eq!(TodBucket::Afternoon.as_str(), "afternoon");
}

#[test]
fn sessions_clone_whole() {
    let s = SessionRecord {
        id: "u1".into(),
        app_name: "Roblox".into(),
        window_title: "Lobby".into(),
        category: Category::Games,
        start_ts: 1000,
        end_ts: 1060,
        duration_s: 60,
    };
    assert_eq!(s.clone(), s);
}
