//! The bundled catalog: well-known applications and title patterns.
use crate::model::{Category, CategoryRule, RuleView};
use crate::seqs::views;
use vstd::prelude::*;

verus! {

pub const GAMES: [&'static str; 24] = [
    "Roblox", "RobloxPlayerBeta", "Minecraft", "Minecraft Launcher", "MinecraftLauncher",
    "Fortnite", "FortniteClient-Win64-Shipping", "Steam", "Epic Games Launcher",
    "EpicGamesLauncher", "Among Us", "Terraria", "Stardew Valley", "Rocket League",
    "League of Legends", "Valorant", "Overwatch", "Genshin Impact", "The Sims 4", "Battle.net",
    "Geometry Dash", "Brawlhalla", "Fall Guys", "Garry's Mod",
];

pub const EDUCATIONAL: [&'static str; 18] = [
    "Scratch", "Scratch 3", "Duolingo", "Khan Academy", "Anki", "GeoGebra", "Tynker",
    "Swift Playgrounds", "Kindle", "Books", "Typing Master", "Stellarium", "Google Earth",
    "Google Earth Pro", "Mathematica", "Kerbal Space Program", "Prodigy", "Lightbot",
];

pub const ENTERTAINMENT: [&'static str; 18] = [
    "Netflix", "Spotify", "Disney+", "VLC", "VLC media player", "iTunes", "Music", "TV",
    "Podcasts", "Hulu", "Prime Video", "Plex", "Twitch", "QuickTime Player",
    "Windows Media Player", "Movies & TV", "Photos", "Kodi",
];

pub const SOCIAL_MEDIA: [&'static str; 16] = [
    "Discord", "WhatsApp", "Telegram", "Messages", "FaceTime", "Skype", "Snapchat", "Instagram",
    "TikTok", "Facebook", "Messenger", "Signal", "WeChat", "Twitter", "Reddit", "LINE",
];

pub const PRODUCTIVITY: [&'static str; 26] = [
    "Microsoft Word", "WINWORD", "Microsoft Excel", "EXCEL", "Microsoft PowerPoint", "POWERPNT",
    "Microsoft Outlook", "OUTLOOK", "OneNote", "Pages", "Numbers", "Keynote", "Notes", "Notepad",
    "TextEdit", "Calendar", "Reminders", "Mail", "Preview", "Finder", "Visual Studio Code", "Code",
    "Xcode", "LibreOffice", "Zoom", "Microsoft Teams",
];

pub const BROWSERS: [&'static str; 14] = [
    "Safari", "Google Chrome", "Chrome", "Firefox", "Mozilla Firefox", "Microsoft Edge", "msedge",
    "Edge", "Opera", "Brave", "Brave Browser", "Arc", "Vivaldi", "Chromium",
];

pub const VIDEO_TITLES: &'static str =
    "(?i)youtube|netflix|disney\\+|hulu|prime video|twitch|crunchyroll";

pub const LEARNING_TITLES: &'static str =
    "(?i)khan academy|duolingo|wikipedia|google classroom|code\\.org|scratch - ";

pub const SOCIAL_TITLES: &'static str =
    "(?i)facebook|instagram|tiktok|snapchat|discord|reddit|whatsapp";

pub const GAME_TITLES: &'static str = "(?i)minecraft|fortnite|coolmath|poki\\.com|miniclip";

pub const OFFICE_TITLES: &'static str = "(?i)google docs|google sheets|google slides|notion";

/// A group of names with their category.
pub open spec fn group<const N: usize>(names: [&'static str; N], c: Category) -> Seq<
    (Seq<char>, Category),
> {
    Seq::new(N as nat, |i: int| (names@[i]@, c))
}

/// The applications of the catalog.
pub open spec fn known_apps() -> Seq<(Seq<char>, Category)> {
    group(GAMES, Category::Games) + group(EDUCATIONAL, Category::Educational) + group(
        ENTERTAINMENT,
        Category::Entertainment,
    ) + group(SOCIAL_MEDIA, Category::SocialMedia) + group(PRODUCTIVITY, Category::Productivity)
        + group(BROWSERS, Category::Browsers)
}

/// The patterns of the catalog, in order of precedence.
pub open spec fn known_rules() -> Seq<RuleView> {
    seq![
        RuleView { pattern: VIDEO_TITLES@, category: Category::Entertainment },
        RuleView { pattern: LEARNING_TITLES@, category: Category::Educational },
        RuleView { pattern: SOCIAL_TITLES@, category: Category::SocialMedia },
        RuleView { pattern: GAME_TITLES@, category: Category::Games },
        RuleView { pattern: OFFICE_TITLES@, category: Category::Productivity },
    ]
}

/// The texts of a list of applications.
pub open spec fn app_views(apps: Seq<(&'static str, Category)>) -> Seq<(Seq<char>, Category)> {
    Seq::new(apps.len(), |i: int| (apps[i].0@, apps[i].1))
}

fn add_group<const N: usize>(
    apps: &mut Vec<(&'static str, Category)>,
    names: &[&'static str; N],
    c: Category,
)
    ensures
        app_views(final(apps)@) == app_views(old(apps)@) + group(*names, c),
{
    let ghost before = apps@;
    let mut i: usize = 0;
    assert(app_views(before) + group(*names, c).take(0) =~= app_views(before));
    while i < N
        invariant
            i <= N,
            app_views(apps@) == app_views(before) + group(*names, c).take(i as int),
        decreases N - i,
    {
        let ghost so_far = apps@;
        apps.push((names[i], c));
        proof {
            let all = group(*names, c);
            assert(app_views(apps@) =~= app_views(so_far).push((names@[i as int]@, c)));
            assert(all[i as int] == (names@[i as int]@, c));
            assert(all.take(i + 1) =~= all.take(i as int).push(all[i as int]));
            assert(app_views(before) + all.take(i + 1) =~= (app_views(before) + all.take(
                i as int,
            )).push(all[i as int]));
        }
        i += 1;
    }
    assert(group(*names, c).take(N as int) =~= group(*names, c));
}

pub fn bundled_apps() -> (apps: Vec<(&'static str, Category)>)
    ensures
        app_views(apps@) == known_apps(),
{
    let mut apps: Vec<(&'static str, Category)> = Vec::new();
    assert(app_views(apps@) =~= Seq::<(Seq<char>, Category)>::empty());
    add_group(&mut apps, &GAMES, Category::Games);
    add_group(&mut apps, &EDUCATIONAL, Category::Educational);
    add_group(&mut apps, &ENTERTAINMENT, Category::Entertainment);
    add_group(&mut apps, &SOCIAL_MEDIA, Category::SocialMedia);
    add_group(&mut apps, &PRODUCTIVITY, Category::Productivity);
    add_group(&mut apps, &BROWSERS, Category::Browsers);
    assert(app_views(apps@) =~= known_apps());
    apps
}

fn rule(pattern: &'static str, category: Category) -> (rule: CategoryRule)
    ensures
        rule@ == (RuleView { pattern: pattern@, category }),
{
    CategoryRule { pattern: pattern.to_owned(), category }
}

pub fn bundled_rules() -> (rules: Vec<CategoryRule>)
    ensures
        views(rules@) == known_rules(),
{
    let mut rules: Vec<CategoryRule> = Vec::new();
    rules.push(rule(VIDEO_TITLES, Category::Entertainment));
    rules.push(rule(LEARNING_TITLES, Category::Educational));
    rules.push(rule(SOCIAL_TITLES, Category::SocialMedia));
    rules.push(rule(GAME_TITLES, Category::Games));
    rules.push(rule(OFFICE_TITLES, Category::Productivity));
    assert(views(rules@) =~= known_rules());
    rules
}

/// The bundled rules: videos, learning, social media, games, office, each with
/// its pattern and category, in this order.
pub proof fn rules_stand_in_order()
    ensures
        known_rules().len() == 5,
        known_rules()[0] == (RuleView {
            pattern: VIDEO_TITLES@,
            category: Category::Entertainment,
        }),
        known_rules()[1] == (RuleView {
            pattern: LEARNING_TITLES@,
            category: Category::Educational,
        }),
        known_rules()[2] == (RuleView {
            pattern: SOCIAL_TITLES@,
            category: Category::SocialMedia,
        }),
        known_rules()[3] == (RuleView { pattern: GAME_TITLES@, category: Category::Games }),
        known_rules()[4] == (RuleView {
            pattern: OFFICE_TITLES@,
            category: Category::Productivity,
        }),
{
}

/// Every bundled name is listed under the category of its list.
pub proof fn names_are_listed_under_their_category(i: int)
    ensures
        0 <= i < 24 ==> known_apps().contains((GAMES@[i]@, Category::Games)),
        0 <= i < 18 ==> known_apps().contains((EDUCATIONAL@[i]@, Category::Educational)),
        0 <= i < 18 ==> known_apps().contains((ENTERTAINMENT@[i]@, Category::Entertainment)),
        0 <= i < 16 ==> known_apps().contains((SOCIAL_MEDIA@[i]@, Category::SocialMedia)),
        0 <= i < 26 ==> known_apps().contains((PRODUCTIVITY@[i]@, Category::Productivity)),
        0 <= i < 14 ==> known_apps().contains((BROWSERS@[i]@, Category::Browsers)),
{
    let all = known_apps();
    if 0 <= i < 24 {
        assert(all[i] == (GAMES@[i]@, Category::Games));
    }
    if 0 <= i < 18 {
        assert(all[24 + i] == (EDUCATIONAL@[i]@, Category::Educational));
        assert(all[42 + i] == (ENTERTAINMENT@[i]@, Category::Entertainment));
    }
    if 0 <= i < 16 {
        assert(all[60 + i] == (SOCIAL_MEDIA@[i]@, Category::SocialMedia));
    }
    if 0 <= i < 26 {
        assert(all[76 + i] == (PRODUCTIVITY@[i]@, Category::Productivity));
    }
    if 0 <= i < 14 {
        assert(all[102 + i] == (BROWSERS@[i]@, Category::Browsers));
    }
}

} // verus!
