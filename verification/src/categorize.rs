//! Layered categorization of applications. A parent's override of the
//! application comes first; then the pattern rules, matched against name and
//! title, the first match deciding; then the table of known applications; what
//! is left is `Other`.
use crate::catalog::{app_views, bundled_apps, bundled_rules, known_apps, known_rules};
use crate::model::{Category, CategoryOverride, CategoryRule, OverrideView, RuleView};
use crate::seqs::{first, lemma_first_at, lemma_first_none, views};
use crate::text::{
    before_suffix, lowercase, strip_suffix, trim, trimmed, trimming_ignores_white_space, white_space,
};
use regex::Regex;
use vstd::hash_map::StringHashMap;
use vstd::prelude::*;

verus! {

// ---- Patterns ----
/// A compiled pattern of the `regex` crate.
#[verifier::external_type_specification]
#[verifier::external_body]
pub struct ExRegex(regex::Regex);

/// What `regex::Regex::new` makes of a pattern: the compiled form, or nothing
/// where it rejects the pattern.
pub uninterp spec fn compiled(pattern: Seq<char>) -> Option<Regex>;

/// Whether a compiled pattern matches somewhere in a text, as
/// `regex::Regex::is_match` decides it.
pub uninterp spec fn finds(re: Regex, text: Seq<char>) -> bool;

/// Trusted: `regex::Regex::new` compiles a pattern or rejects it, and depends
/// on the pattern alone. Which patterns it accepts and how big one may get is
/// left to the crate.
#[verifier::external_body]
fn compile_pattern(pattern: &str) -> (res: Option<Regex>)
    ensures
        res == compiled(pattern@),
{
    Regex::new(pattern).ok()
}

/// Trusted: `regex::Regex::is_match` tells whether the pattern matches
/// anywhere in the text, and depends on pattern and text alone.
#[verifier::external_body]
fn pattern_finds(re: &Regex, text: &str) -> (res: bool)
    ensures
        res == finds(*re, text@),
{
    re.is_match(text)
}

// ---- Names ----
/// An application name as it is looked up: without white space around it, in
/// lower case, without a trailing `.exe`.
pub open spec fn normalized(app_name: Seq<char>) -> Seq<char> {
    let lower = lowercase(trimmed(app_name));
    match before_suffix(lower, ".exe"@) {
        Some(stem) => stem,
        None => lower,
    }
}

/// Normalizes an application name for lookup.
pub fn normalize(app_name: &str) -> (key: String)
    ensures
        key@ == normalized(app_name@),
{
    let lower = trim(app_name).to_lowercase();
    match strip_suffix(lower.as_str(), ".exe") {
        Some(stem) => stem.to_owned(),
        None => lower.clone(),
    }
}

// ---- Model ----
/// What a categorizer knows.
#[verifier::ext_equal]
pub struct CategorizerView {
    pub table: Map<Seq<char>, Category>,
    pub rules: Seq<(Regex, Category)>,
    pub overrides: Map<Seq<char>, Category>,
}

/// A table of applications by normalized name; a later entry replaces an
/// earlier one of the same name.
pub open spec fn table_of(apps: Seq<(Seq<char>, Category)>) -> Map<Seq<char>, Category>
    decreases apps.len(),
{
    if apps.len() == 0 {
        Map::empty()
    } else {
        table_of(apps.drop_last()).insert(normalized(apps.last().0), apps.last().1)
    }
}

/// A list of overrides as a table.
pub open spec fn override_apps(overrides: Seq<OverrideView>) -> Seq<(Seq<char>, Category)> {
    Seq::new(overrides.len(), |i: int| (overrides[i].app_name, overrides[i].category))
}

/// The rules whose patterns compile, in their order; the others are skipped.
pub open spec fn compiled_rules(rules: Seq<RuleView>) -> Seq<(Regex, Category)>
    decreases rules.len(),
{
    if rules.len() == 0 {
        Seq::empty()
    } else {
        match compiled(rules.last().pattern) {
            Some(re) => compiled_rules(rules.drop_last()).push((re, rules.last().category)),
            None => compiled_rules(rules.drop_last()),
        }
    }
}

pub open spec fn entry(table: Map<Seq<char>, Category>, key: Seq<char>) -> Option<Category> {
    if table.contains_key(key) {
        Some(table[key])
    } else {
        None
    }
}

/// Whether each rule matches an application name or a window title.
pub open spec fn rule_hits(
    rules: Seq<(Regex, Category)>,
    app_name: Seq<char>,
    title: Seq<char>,
) -> Seq<(bool, Category)> {
    Seq::new(
        rules.len(),
        |i: int| (finds(rules[i].0, app_name) || finds(rules[i].0, title), rules[i].1),
    )
}

/// The decision of the layers: override, first rule that matches, table, `Other`.
pub open spec fn layered(
    overridden: Option<Category>,
    hits: Seq<(bool, Category)>,
    listed: Option<Category>,
) -> Category {
    match overridden {
        Some(c) => c,
        None => match first(hits, |h: (bool, Category)| h.0) {
            Some(h) => h.1,
            None => match listed {
                Some(c) => c,
                None => Category::Other,
            },
        },
    }
}

/// The category of an application with a window title.
pub open spec fn category_for(
    c: CategorizerView,
    app_name: Seq<char>,
    title: Seq<char>,
) -> Category {
    layered(
        entry(c.overrides, normalized(app_name)),
        rule_hits(c.rules, app_name, title),
        entry(c.table, normalized(app_name)),
    )
}

// ---- Categorizer ----
pub struct Categorizer {
    static_table: StringHashMap<Category>,
    regex_rules: Vec<(Regex, Category)>,
    overrides: StringHashMap<Category>,
}

impl View for Categorizer {
    type V = CategorizerView;

    closed spec fn view(&self) -> CategorizerView {
        CategorizerView {
            table: self.static_table@,
            rules: self.regex_rules@,
            overrides: self.overrides@,
        }
    }
}

impl Categorizer {
    /// The bundled applications and rules, no overrides.
    pub fn from_bundled() -> (res: Self)
        ensures
            res@ == (CategorizerView {
                table: table_of(known_apps()),
                rules: compiled_rules(known_rules()),
                overrides: Map::empty(),
            }),
    {
        let apps = bundled_apps();
        let rules = bundled_rules();
        Categorizer {
            static_table: collect_table(&apps),
            regex_rules: compile_rules(rules.as_slice()),
            overrides: StringHashMap::new(),
        }
    }

    /// Replaces the rules.
    pub fn with_rules(self, rules: &[CategoryRule]) -> (res: Self)
        ensures
            res@ == (CategorizerView { rules: compiled_rules(views(rules@)), ..self@ }),
    {
        Categorizer {
            static_table: self.static_table,
            regex_rules: compile_rules(rules),
            overrides: self.overrides,
        }
    }

    /// Replaces the overrides.
    pub fn with_overrides(self, overrides: &[CategoryOverride]) -> (res: Self)
        ensures
            res@ == (CategorizerView {
                overrides: table_of(override_apps(views(overrides@))),
                ..self@
            }),
    {
        Categorizer {
            static_table: self.static_table,
            regex_rules: self.regex_rules,
            overrides: collect_overrides(overrides),
        }
    }

    pub fn categorize(&self, app_name: &str, window_title: &str) -> (res: Category)
        ensures
            res == category_for(self@, app_name@, window_title@),
    {
        let key = normalize(app_name);
        let overridden: Option<Category> = match self.overrides.get(key.as_str()) {
            Some(c) => Some(*c),
            None => None,
        };
        let listed: Option<Category> = match self.static_table.get(key.as_str()) {
            Some(c) => Some(*c),
            None => None,
        };
        let mut hits: Vec<(bool, Category)> = Vec::new();
        let mut i: usize = 0;
        while i < self.regex_rules.len()
            invariant
                i <= self.regex_rules.len(),
                hits@ == rule_hits(self.regex_rules@, app_name@, window_title@).take(i as int),
            decreases self.regex_rules.len() - i,
        {
            let hit = pattern_finds(&self.regex_rules[i].0, app_name) || pattern_finds(
                &self.regex_rules[i].0,
                window_title,
            );
            hits.push((hit, self.regex_rules[i].1));
            proof {
                let all = rule_hits(self.regex_rules@, app_name@, window_title@);
                assert(all.take(i + 1) =~= all.take(i as int).push(all[i as int]));
            }
            i += 1;
        }
        assert(hits@ =~= rule_hits(self.regex_rules@, app_name@, window_title@));
        decide(overridden, &hits, listed)
    }
}

/// Decides between the layers once each has been consulted.
pub fn decide(
    overridden: Option<Category>,
    hits: &Vec<(bool, Category)>,
    listed: Option<Category>,
) -> (res: Category)
    ensures
        res == layered(overridden, hits@, listed),
{
    if let Some(c) = overridden {
        return c;
    }
    let ghost hit = |h: (bool, Category)| h.0;
    let mut i: usize = 0;
    while i < hits.len()
        invariant
            overridden is None,
            i <= hits.len(),
            hit == (|h: (bool, Category)| h.0),
            forall|j: int| 0 <= j < i ==> !hit(#[trigger] hits@[j]),
        decreases hits.len() - i,
    {
        if hits[i].0 {
            proof {
                lemma_first_at(hits@, hit, i as int);
            }
            return hits[i].1;
        }
        i += 1;
    }
    proof {
        lemma_first_none(hits@, hit);
    }
    match listed {
        Some(c) => c,
        None => Category::Other,
    }
}

/// Compiles rules, skipping those whose pattern is not valid.
fn compile_rules(rules: &[CategoryRule]) -> (res: Vec<(Regex, Category)>)
    ensures
        res@ == compiled_rules(views(rules@)),
{
    let mut res: Vec<(Regex, Category)> = Vec::new();
    let mut i: usize = 0;
    assert(views(rules@).take(0) =~= Seq::<RuleView>::empty());
    while i < rules.len()
        invariant
            i <= rules@.len(),
            res@ == compiled_rules(views(rules@).take(i as int)),
        decreases rules@.len() - i,
    {
        assert(views(rules@).take(i + 1).drop_last() =~= views(rules@).take(i as int));
        if let Some(re) = compile_pattern(rules[i].pattern.as_str()) {
            res.push((re, rules[i].category));
        }
        i += 1;
    }
    assert(views(rules@).take(rules@.len() as int) =~= views(rules@));
    res
}

fn collect_table(apps: &Vec<(&'static str, Category)>) -> (res: StringHashMap<Category>)
    ensures
        res@ == table_of(app_views(apps@)),
{
    let mut res: StringHashMap<Category> = StringHashMap::new();
    let mut i: usize = 0;
    assert(app_views(apps@).take(0) =~= Seq::<(Seq<char>, Category)>::empty());
    while i < apps.len()
        invariant
            i <= apps.len(),
            res@ == table_of(app_views(apps@).take(i as int)),
        decreases apps.len() - i,
    {
        assert(app_views(apps@).take(i + 1).drop_last() =~= app_views(apps@).take(i as int));
        res.insert(normalize(apps[i].0), apps[i].1);
        i += 1;
    }
    assert(app_views(apps@).take(apps@.len() as int) =~= app_views(apps@));
    res
}

fn collect_overrides(overrides: &[CategoryOverride]) -> (res: StringHashMap<Category>)
    ensures
        res@ == table_of(override_apps(views(overrides@))),
{
    let ghost all = override_apps(views(overrides@));
    let mut res: StringHashMap<Category> = StringHashMap::new();
    let mut i: usize = 0;
    assert(all.take(0) =~= Seq::<(Seq<char>, Category)>::empty());
    while i < overrides.len()
        invariant
            i <= overrides@.len(),
            all == override_apps(views(overrides@)),
            res@ == table_of(all.take(i as int)),
        decreases overrides@.len() - i,
    {
        assert(all.take(i + 1).drop_last() =~= all.take(i as int));
        res.insert(normalize(overrides[i].app_name.as_str()), overrides[i].category);
        i += 1;
    }
    assert(all.take(overrides@.len() as int) =~= all);
    res
}

// ---- Laws ----
/// An override of an application decides its category, whatever the rules and
/// the table say.
pub proof fn override_beats_rules_and_table(c: CategorizerView, app: Seq<char>, title: Seq<char>)
    requires
        c.overrides.contains_key(normalized(app)),
    ensures
        category_for(c, app, title) == c.overrides[normalized(app)],
{
}

/// Without an override the first rule that matches name or title decides,
/// whatever the table says.
pub proof fn first_matching_rule_beats_table(
    c: CategorizerView,
    app: Seq<char>,
    title: Seq<char>,
    i: int,
)
    requires
        !c.overrides.contains_key(normalized(app)),
        0 <= i < c.rules.len(),
        finds(c.rules[i].0, app) || finds(c.rules[i].0, title),
        forall|j: int|
            0 <= j < i ==> !finds((#[trigger] c.rules[j]).0, app) && !finds(c.rules[j].0, title),
    ensures
        category_for(c, app, title) == c.rules[i].1,
{
    let hits = rule_hits(c.rules, app, title);
    let hit = |h: (bool, Category)| h.0;
    assert forall|j: int| 0 <= j < i implies !hit(#[trigger] hits[j]) by {
        assert(!finds(c.rules[j].0, app) && !finds(c.rules[j].0, title));
    }
    lemma_first_at(hits, hit, i);
}

/// Without an override and a rule that matches, the table decides; what it
/// does not list is `Other`.
pub proof fn table_decides_last(c: CategorizerView, app: Seq<char>, title: Seq<char>)
    requires
        !c.overrides.contains_key(normalized(app)),
        forall|j: int|
            0 <= j < c.rules.len() ==> !finds((#[trigger] c.rules[j]).0, app) && !finds(
                c.rules[j].0,
                title,
            ),
    ensures
        category_for(c, app, title) == match entry(c.table, normalized(app)) {
            Some(cat) => cat,
            None => Category::Other,
        },
{
    let hits = rule_hits(c.rules, app, title);
    let hit = |h: (bool, Category)| h.0;
    assert forall|j: int| 0 <= j < hits.len() implies !hit(#[trigger] hits[j]) by {
        assert(!finds(c.rules[j].0, app) && !finds(c.rules[j].0, title));
    }
    lemma_first_none(hits, hit);
}

/// A rule whose pattern is not valid changes nothing, wherever it stands.
pub proof fn invalid_rule_is_skipped(before: Seq<RuleView>, bad: RuleView, after: Seq<RuleView>)
    requires
        compiled(bad.pattern) is None,
    ensures
        compiled_rules(before + seq![bad] + after) == compiled_rules(before + after),
    decreases after.len(),
{
    let with = before + seq![bad] + after;
    if after.len() == 0 {
        assert(with.drop_last() =~= before);
        assert(before + after =~= before);
    } else {
        invalid_rule_is_skipped(before, bad, after.drop_last());
        assert(with.drop_last() =~= before + seq![bad] + after.drop_last());
        assert((before + after).drop_last() =~= before + after.drop_last());
    }
}

/// Names that normalize alike are categorized alike, as long as the rules do
/// not tell them apart.
pub proof fn lookup_ignores_spelling(c: CategorizerView, a: Seq<char>, b: Seq<char>, title: Seq<char>)
    requires
        normalized(a) == normalized(b),
        forall|j: int|
            0 <= j < c.rules.len() ==> finds((#[trigger] c.rules[j]).0, a) == finds(c.rules[j].0, b),
    ensures
        category_for(c, a, title) == category_for(c, b, title),
{
    assert(rule_hits(c.rules, a, title) =~= rule_hits(c.rules, b, title)) by {
        assert forall|j: int| 0 <= j < c.rules.len() implies rule_hits(c.rules, a, title)[j]
            == rule_hits(c.rules, b, title)[j] by {
            assert(finds(c.rules[j].0, a) == finds(c.rules[j].0, b));
        }
    }
}

/// Rule `i` is the first that finds a match in the name or in the title.
pub open spec fn first_match(
    rules: Seq<(Regex, Category)>,
    app: Seq<char>,
    title: Seq<char>,
    i: int,
) -> bool {
    &&& 0 <= i < rules.len()
    &&& finds(rules[i].0, app) || finds(rules[i].0, title)
    &&& forall|j: int|
        0 <= j < i ==> !finds((#[trigger] rules[j]).0, app) && !finds(rules[j].0, title)
}

/// No rule finds a match in the name or in the title.
pub open spec fn no_match(rules: Seq<(Regex, Category)>, app: Seq<char>, title: Seq<char>) -> bool {
    forall|j: int|
        0 <= j < rules.len() ==> !finds((#[trigger] rules[j]).0, app) && !finds(rules[j].0, title)
}

/// A category is the one that a categorizer owes to a name and a title: that
/// of an override, or of the first rule that matches either, or of the table,
/// or `Other`.
pub open spec fn category_owed(
    c: CategorizerView,
    app: Seq<char>,
    title: Seq<char>,
    category: Category,
) -> bool {
    if c.overrides.contains_key(normalized(app)) {
        category == c.overrides[normalized(app)]
    } else {
        &&& forall|i: int| #[trigger]
            first_match(c.rules, app, title, i) ==> category == c.rules[i].1
        &&& no_match(c.rules, app, title) && c.table.contains_key(normalized(app)) ==> category
            == c.table[normalized(app)]
        &&& no_match(c.rules, app, title) && !c.table.contains_key(normalized(app)) ==> category
            == Category::Other
    }
}

/// The layers decide in turn.
pub proof fn layers_decide_in_turn(c: CategorizerView, app: Seq<char>, title: Seq<char>)
    ensures
        category_owed(c, app, title, category_for(c, app, title)),
{
    if !c.overrides.contains_key(normalized(app)) {
        assert forall|i: int| #[trigger] first_match(c.rules, app, title, i) implies category_for(
            c,
            app,
            title,
        ) == c.rules[i].1 by {
            first_matching_rule_beats_table(c, app, title, i);
        }
        if no_match(c.rules, app, title) {
            table_decides_last(c, app, title);
        }
    }
}

/// A table lists exactly the normalized names of its entries, and the last
/// entry of a name counts.
pub proof fn last_entry_of_a_name_counts(apps: Seq<(Seq<char>, Category)>, key: Seq<char>, i: int)
    requires
        0 <= i < apps.len(),
        normalized(apps[i].0) == key,
        forall|j: int| i < j < apps.len() ==> normalized((#[trigger] apps[j]).0) != key,
    ensures
        table_of(apps).contains_key(key),
        table_of(apps)[key] == apps[i].1,
    decreases apps.len(),
{
    if i < apps.len() - 1 {
        assert(normalized(apps[apps.len() - 1].0) != key);
        assert forall|j: int| i < j < apps.drop_last().len() implies normalized(
            (#[trigger] apps.drop_last()[j]).0,
        ) != key by {
            assert(apps.drop_last()[j] == apps[j]);
        }
        last_entry_of_a_name_counts(apps.drop_last(), key, i);
    }
}

/// A name that no entry has is not listed.
pub proof fn other_names_are_not_listed(apps: Seq<(Seq<char>, Category)>, key: Seq<char>)
    requires
        forall|j: int| 0 <= j < apps.len() ==> normalized((#[trigger] apps[j]).0) != key,
    ensures
        !table_of(apps).contains_key(key),
    decreases apps.len(),
{
    if apps.len() > 0 {
        assert(normalized(apps[apps.len() - 1].0) != key);
        assert forall|j: int| 0 <= j < apps.drop_last().len() implies normalized(
            (#[trigger] apps.drop_last()[j]).0,
        ) != key by {
            assert(apps.drop_last()[j] == apps[j]);
        }
        other_names_are_not_listed(apps.drop_last(), key);
    }
}

/// A rule whose pattern is valid keeps its category and its place between the
/// rules before and after it.
pub proof fn valid_rule_keeps_its_place(
    before: Seq<RuleView>,
    good: RuleView,
    re: Regex,
    after: Seq<RuleView>,
)
    requires
        compiled(good.pattern) == Some(re),
    ensures
        compiled_rules(before + seq![good] + after) == compiled_rules(before) + seq![
            (re, good.category),
        ] + compiled_rules(after),
    decreases after.len(),
{
    let with = before + seq![good] + after;
    if after.len() == 0 {
        assert(with.drop_last() =~= before);
        assert(with.last() == good);
        assert(compiled_rules(with) =~= compiled_rules(before) + seq![(re, good.category)]
            + compiled_rules(after));
    } else {
        valid_rule_keeps_its_place(before, good, re, after.drop_last());
        assert(with.drop_last() =~= before + seq![good] + after.drop_last());
        assert(with.last() == after.last());
        assert(compiled_rules(with) =~= compiled_rules(before) + seq![(re, good.category)]
            + compiled_rules(after));
    }
}

/// White space around a name does not matter for its lookup.
pub proof fn lookup_ignores_white_space(name: Seq<char>, before: Seq<char>, after: Seq<char>)
    requires
        forall|i: int| 0 <= i < before.len() ==> white_space(#[trigger] before[i]),
        forall|i: int| 0 <= i < after.len() ==> white_space(#[trigger] after[i]),
    ensures
        normalized(before + name + after) == normalized(name),
{
    trimming_ignores_white_space(name, before, after);
}

/// The lookup goes by the lower-case name without a trailing `.exe`.
pub proof fn lookup_goes_by_the_stem(name: Seq<char>, stem: Seq<char>)
    ensures
        lowercase(trimmed(name)) == stem + ".exe"@ ==> normalized(name) == stem,
        !".exe"@.is_suffix_of(lowercase(trimmed(name))) ==> normalized(name) == lowercase(
            trimmed(name),
        ),
{
    let lower = lowercase(trimmed(name));
    if lower == stem + ".exe"@ {
        assert(lower.take(lower.len() - ".exe"@.len()) =~= stem);
        assert(".exe"@ =~= lower.subrange(stem.len() as int, lower.len() as int));
    }
}

/// The decision between the layers: the override, or else the first hit, or
/// else the table, or else `Other`.
pub proof fn decision_takes_the_first_layer(
    overridden: Option<Category>,
    hits: &Vec<(bool, Category)>,
    listed: Option<Category>,
    res: Category,
    i: int,
)
    requires
        call_ensures(decide, (overridden, hits, listed), res),
    ensures
        overridden matches Some(c) ==> res == c,
        overridden is None && 0 <= i < hits@.len() && hits@[i].0 && (forall|j: int|
            0 <= j < i ==> !(#[trigger] hits@[j]).0) ==> res == hits@[i].1,
        overridden is None && (forall|j: int| 0 <= j < hits@.len() ==> !(#[trigger] hits@[j]).0)
            ==> res == match listed {
            Some(c) => c,
            None => Category::Other,
        },
{
    let hit = |h: (bool, Category)| h.0;
    if overridden is None && 0 <= i < hits@.len() && hits@[i].0 && (forall|j: int|
        0 <= j < i ==> !(#[trigger] hits@[j]).0) {
        assert forall|j: int| 0 <= j < i implies !hit(#[trigger] hits@[j]) by {
            assert(!hits@[j].0);
        }
        lemma_first_at(hits@, hit, i);
    }
    if overridden is None && (forall|j: int| 0 <= j < hits@.len() ==> !(#[trigger] hits@[j]).0) {
        assert forall|j: int| 0 <= j < hits@.len() implies !hit(#[trigger] hits@[j]) by {
            assert(!hits@[j].0);
        }
        lemma_first_none(hits@, hit);
    }
}

/// A categorizer with other rules or overrides keeps what it has besides them;
/// a later override of a name replaces an earlier one, and a name without one
/// has none.
pub proof fn categorizer_takes_rules_and_overrides(
    c: Categorizer,
    rules: &[CategoryRule],
    overrides: &[CategoryOverride],
    ruled: Categorizer,
    overridden: Categorizer,
    key: Seq<char>,
    i: int,
)
    requires
        call_ensures(Categorizer::with_rules, (c, rules), ruled),
        call_ensures(Categorizer::with_overrides, (c, overrides), overridden),
    ensures
        ruled@.table == c@.table && ruled@.overrides == c@.overrides,
        ruled@.rules == compiled_rules(views(rules@)),
        overridden@.table == c@.table && overridden@.rules == c@.rules,
        0 <= i < overrides@.len() && normalized(overrides@[i].app_name@) == key && (forall|j: int|
            i < j < overrides@.len() ==> normalized((#[trigger] overrides@[j]).app_name@) != key)
            ==> overridden@.overrides.contains_key(key) && overridden@.overrides[key]
            == overrides@[i].category,
        (forall|j: int|
            0 <= j < overrides@.len() ==> normalized((#[trigger] overrides@[j]).app_name@) != key)
            ==> !overridden@.overrides.contains_key(key),
{
    let apps = override_apps(views(overrides@));
    if 0 <= i < overrides@.len() && normalized(overrides@[i].app_name@) == key && (forall|j: int|
        i < j < overrides@.len() ==> normalized((#[trigger] overrides@[j]).app_name@) != key) {
        assert forall|j: int| i < j < apps.len() implies normalized((#[trigger] apps[j]).0) != key by {
            assert(normalized(overrides@[j].app_name@) != key);
        }
        last_entry_of_a_name_counts(apps, key, i);
    }
    if forall|j: int|
        0 <= j < overrides@.len() ==> normalized((#[trigger] overrides@[j]).app_name@) != key {
        assert forall|j: int| 0 <= j < apps.len() implies normalized((#[trigger] apps[j]).0) != key by {
            assert(normalized(overrides@[j].app_name@) != key);
        }
        other_names_are_not_listed(apps, key);
    }
}

/// An application is looked up by its name in lower case, without the white
/// space around it and without `.exe`; the bundled categorizer knows the
/// bundled names and rules and no overrides.
pub proof fn bundled_names_are_looked_up(
    app_name: &str,
    key: String,
    c: Categorizer,
    stem: Seq<char>,
    i: int,
)
    requires
        call_ensures(normalize, (app_name,), key),
        call_ensures(Categorizer::from_bundled, (), c),
    ensures
        lowercase(trimmed(app_name@)) == stem + ".exe"@ ==> key@ == stem,
        !".exe"@.is_suffix_of(lowercase(trimmed(app_name@))) ==> key@ == lowercase(
            trimmed(app_name@),
        ),
        c@.overrides.dom().is_empty(),
        c@.rules == compiled_rules(known_rules()),
        0 <= i < known_apps().len() && normalized(known_apps()[i].0) == key@ && (forall|j: int|
            i < j < known_apps().len() ==> normalized((#[trigger] known_apps()[j]).0) != key@)
            ==> c@.table.contains_key(key@) && c@.table[key@] == known_apps()[i].1,
{
    lookup_goes_by_the_stem(app_name@, stem);
    if 0 <= i < known_apps().len() && normalized(known_apps()[i].0) == key@ && (forall|j: int|
        i < j < known_apps().len() ==> normalized((#[trigger] known_apps()[j]).0) != key@) {
        last_entry_of_a_name_counts(known_apps(), key@, i);
    }
}

} // verus!
