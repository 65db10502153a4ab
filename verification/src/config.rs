//! The configuration: its types, the processes that are always protected, and
//! the rules that a configuration has to keep.

use vstd::prelude::*;

use crate::order::{ascending, ascending_is_distinct, insert_sorted};
pub use crate::template::default_config_str;
use crate::text::{
    copy_text, decimal, decimal_text, fold, is_blank, is_blank_text, join2, same_text,
    text_in, texts, to_ascii_lowercase,
};

verus! {

/// Processes that are protected whatever the configuration says.
pub const DEFAULT_PROTECTED: [&'static str; 10] = [
    "csrss.exe",
    "services.exe",
    "smss.exe",
    "wininit.exe",
    "winlogon.exe",
    "dwm.exe",
    "lsass.exe",
    "explorer.exe",
    "system",
    "aetheris.exe",
];

/// The priority classes of a process.
#[derive(Debug, Clone, Copy, PartialEq, Eq, Structural)]
pub enum PriorityClass {
    Idle,
    BelowNormal,
    Normal,
    AboveNormal,
    High,
    Realtime,
}

/// The logical processors that a process may run on.
#[derive(Debug)]
pub struct AffinitySpec {
    pub cores: Vec<u8>,
}

/// Which processes are games, and what happens when one runs.
#[derive(Debug)]
pub struct GameConfig {
    pub boost_on_start: bool,
    pub processes: Vec<String>,
    /// Purge the standby memory list once when game mode is entered.
    pub purge_standby_on_boost: bool,
}

/// What is done to a background process while a game runs.
#[derive(Debug)]
pub struct BackgroundRule {
    pub name: String,
    pub suspend: bool,
    pub priority: Option<PriorityClass>,
    pub affinity: Option<AffinitySpec>,
    pub qos_cpu_quota: Option<u32>,
    pub trim_memory: bool,
}

/// What is done to a process in any mode.
#[derive(Debug)]
pub struct AlwaysRule {
    pub name: String,
    pub priority: Option<PriorityClass>,
    pub affinity: Option<AffinitySpec>,
}

/// Network tweaks, applied when game mode is entered and reverted when it is
/// left. `enabled` gates the others; all are off by default.
#[derive(Debug, Clone, Copy, PartialEq, Eq, Structural)]
pub struct NetworkConfig {
    pub enabled: bool,
    pub nagle: bool,
    pub netbios: bool,
}

/// Settings of the overlay.
#[derive(Debug)]
pub struct OverlayConfig {
    /// System-wide hotkey that opens the overlay, such as `"ctrl+alt+o"`.
    pub hotkey: Option<String>,
}

/// A whole configuration.
#[derive(Debug)]
pub struct Config {
    pub game: GameConfig,
    pub background: Vec<BackgroundRule>,
    pub rule: Vec<AlwaysRule>,
    pub protected_extra: Vec<String>,
    pub network: NetworkConfig,
    pub overlay: OverlayConfig,
}

// ---------------------------------------------------------------------------
// Models
// ---------------------------------------------------------------------------
/// A background rule as a value.
pub struct BackgroundView {
    pub name: Seq<char>,
    pub suspend: bool,
    pub priority: Option<PriorityClass>,
    pub affinity: Option<Seq<u8>>,
    pub qos_cpu_quota: Option<u32>,
    pub trim_memory: bool,
}

/// An always-rule as a value.
pub struct AlwaysView {
    pub name: Seq<char>,
    pub priority: Option<PriorityClass>,
    pub affinity: Option<Seq<u8>>,
}

/// A game section as a value.
pub struct GameView {
    pub boost_on_start: bool,
    pub processes: Seq<Seq<char>>,
    pub purge_standby_on_boost: bool,
}

/// A configuration as a value.
pub struct ConfigView {
    pub game: GameView,
    pub background: Seq<BackgroundView>,
    pub rule: Seq<AlwaysView>,
    pub protected_extra: Seq<Seq<char>>,
    pub network: NetworkConfig,
    pub hotkey: Option<Seq<char>>,
}

/// The cores of an optional affinity.
pub open spec fn cores_of(a: Option<AffinitySpec>) -> Option<Seq<u8>> {
    match a {
        Some(a) => Some(a.cores@),
        None => None,
    }
}

impl View for BackgroundRule {
    type V = BackgroundView;

    open spec fn view(&self) -> BackgroundView {
        BackgroundView {
            name: self.name@,
            suspend: self.suspend,
            priority: self.priority,
            affinity: cores_of(self.affinity),
            qos_cpu_quota: self.qos_cpu_quota,
            trim_memory: self.trim_memory,
        }
    }
}

impl View for AlwaysRule {
    type V = AlwaysView;

    open spec fn view(&self) -> AlwaysView {
        AlwaysView {
            name: self.name@,
            priority: self.priority,
            affinity: cores_of(self.affinity),
        }
    }
}

impl View for GameConfig {
    type V = GameView;

    open spec fn view(&self) -> GameView {
        GameView {
            boost_on_start: self.boost_on_start,
            processes: texts(self.processes@),
            purge_standby_on_boost: self.purge_standby_on_boost,
        }
    }
}

/// Background rules as values.
pub open spec fn background_views(rules: Seq<BackgroundRule>) -> Seq<BackgroundView> {
    rules.map_values(|r: BackgroundRule| r@)
}

/// Always-rules as values.
pub open spec fn always_views(rules: Seq<AlwaysRule>) -> Seq<AlwaysView> {
    rules.map_values(|r: AlwaysRule| r@)
}

impl View for Config {
    type V = ConfigView;

    open spec fn view(&self) -> ConfigView {
        ConfigView {
            game: self.game@,
            background: background_views(self.background@),
            rule: always_views(self.rule@),
            protected_extra: texts(self.protected_extra@),
            network: self.network,
            hotkey: text_in(self.overlay.hotkey),
        }
    }
}

/// The configuration in which nothing is set.
pub open spec fn empty_config() -> ConfigView {
    ConfigView {
        game: GameView {
            boost_on_start: false,
            processes: Seq::empty(),
            purge_standby_on_boost: false,
        },
        background: Seq::empty(),
        rule: Seq::empty(),
        protected_extra: Seq::empty(),
        network: NetworkConfig { enabled: false, nagle: false, netbios: false },
        hotkey: None,
    }
}

// ---------------------------------------------------------------------------
// Copies and defaults
// ---------------------------------------------------------------------------
impl Clone for AffinitySpec {
    fn clone(&self) -> (r: Self)
        ensures
            r.cores@ == self.cores@,
    {
        AffinitySpec { cores: self.cores.clone() }
    }
}

fn clone_affinity(a: &Option<AffinitySpec>) -> (r: Option<AffinitySpec>)
    ensures
        cores_of(r) == cores_of(*a),
{
    match a {
        Some(a) => Some(a.clone()),
        None => None,
    }
}

/// A copy of a list of texts.
pub fn clone_texts(v: &Vec<String>) -> (r: Vec<String>)
    ensures
        texts(r@) == texts(v@),
{
    let mut r: Vec<String> = Vec::new();
    let mut i: usize = 0;
    while i < v.len()
        invariant
            i <= v@.len(),
            texts(r@) == texts(v@).take(i as int),
        decreases v@.len() - i,
    {
        let ghost before = r@;
        r.push(v[i].clone());
        assert(texts(r@) =~= texts(before).push(v@[i as int]@));
        i = i + 1;
        assert(texts(r@) =~= texts(v@).take(i as int));
    }
    assert(texts(v@).take(i as int) =~= texts(v@));
    r
}

impl Clone for GameConfig {
    fn clone(&self) -> (r: Self)
        ensures
            r@ == self@,
    {
        GameConfig {
            boost_on_start: self.boost_on_start,
            processes: clone_texts(&self.processes),
            purge_standby_on_boost: self.purge_standby_on_boost,
        }
    }
}

impl Clone for BackgroundRule {
    fn clone(&self) -> (r: Self)
        ensures
            r@ == self@,
    {
        BackgroundRule {
            name: self.name.clone(),
            suspend: self.suspend,
            priority: self.priority,
            affinity: clone_affinity(&self.affinity),
            qos_cpu_quota: self.qos_cpu_quota,
            trim_memory: self.trim_memory,
        }
    }
}

impl Clone for AlwaysRule {
    fn clone(&self) -> (r: Self)
        ensures
            r@ == self@,
    {
        AlwaysRule {
            name: self.name.clone(),
            priority: self.priority,
            affinity: clone_affinity(&self.affinity),
        }
    }
}

impl Clone for OverlayConfig {
    fn clone(&self) -> (r: Self)
        ensures
            text_in(r.hotkey) == text_in(self.hotkey),
    {
        OverlayConfig {
            hotkey: match &self.hotkey {
                Some(h) => Some(h.clone()),
                None => None,
            },
        }
    }
}

impl Clone for Config {
    fn clone(&self) -> (r: Self)
        ensures
            r@ == self@,
    {
        let mut background: Vec<BackgroundRule> = Vec::new();
        let mut i: usize = 0;
        while i < self.background.len()
            invariant
                i <= self.background@.len(),
                background_views(background@) == background_views(self.background@).take(i as int),
            decreases self.background@.len() - i,
        {
            let ghost before = background@;
            background.push(self.background[i].clone());
            assert(background_views(background@) =~= background_views(before).push(
                self.background@[i as int]@,
            ));
            i = i + 1;
            assert(background_views(background@) =~= background_views(self.background@).take(
                i as int,
            ));
        }
        assert(background_views(background@) =~= background_views(self.background@));
        let mut rule: Vec<AlwaysRule> = Vec::new();
        let mut k: usize = 0;
        while k < self.rule.len()
            invariant
                k <= self.rule@.len(),
                always_views(rule@) == always_views(self.rule@).take(k as int),
            decreases self.rule@.len() - k,
        {
            let ghost before = rule@;
            rule.push(self.rule[k].clone());
            assert(always_views(rule@) =~= always_views(before).push(self.rule@[k as int]@));
            k = k + 1;
            assert(always_views(rule@) =~= always_views(self.rule@).take(k as int));
        }
        assert(always_views(rule@) =~= always_views(self.rule@));
        Config {
            game: self.game.clone(),
            background,
            rule,
            protected_extra: clone_texts(&self.protected_extra),
            network: self.network,
            overlay: self.overlay.clone(),
        }
    }
}

impl Default for NetworkConfig {
    fn default() -> (r: Self)
        ensures
            r == empty_config().network,
    {
        NetworkConfig { enabled: false, nagle: false, netbios: false }
    }
}

impl Default for GameConfig {
    fn default() -> (r: Self)
        ensures
            r@ == empty_config().game,
    {
        let r = GameConfig {
            boost_on_start: false,
            processes: Vec::new(),
            purge_standby_on_boost: false,
        };
        assert(r@.processes =~= Seq::<Seq<char>>::empty());
        r
    }
}

impl Default for OverlayConfig {
    fn default() -> (r: Self)
        ensures
            r.hotkey is None,
    {
        OverlayConfig { hotkey: None }
    }
}

impl Default for BackgroundRule {
    fn default() -> (r: Self)
        ensures
            r@ == (BackgroundView {
                name: Seq::empty(),
                suspend: false,
                priority: None,
                affinity: None,
                qos_cpu_quota: None,
                trim_memory: false,
            }),
    {
        let r = BackgroundRule {
            name: String::new(),
            suspend: false,
            priority: None,
            affinity: None,
            qos_cpu_quota: None,
            trim_memory: false,
        };
        assert(r@.name =~= Seq::<char>::empty());
        r
    }
}

impl Default for AlwaysRule {
    fn default() -> (r: Self)
        ensures
            r@ == (AlwaysView { name: Seq::empty(), priority: None, affinity: None }),
    {
        let r = AlwaysRule { name: String::new(), priority: None, affinity: None };
        assert(r@.name =~= Seq::<char>::empty());
        r
    }
}

impl Default for Config {
    fn default() -> (r: Self)
        ensures
            r@ == empty_config(),
    {
        let r = Config {
            game: GameConfig::default(),
            background: Vec::new(),
            rule: Vec::new(),
            protected_extra: Vec::new(),
            network: NetworkConfig::default(),
            overlay: OverlayConfig::default(),
        };
        assert(r@.background =~= Seq::<BackgroundView>::empty());
        assert(r@.rule =~= Seq::<AlwaysView>::empty());
        assert(r@.protected_extra =~= Seq::<Seq<char>>::empty());
        r
    }
}

// ---------------------------------------------------------------------------
// Protected processes
// ---------------------------------------------------------------------------
/// The names that are protected by default.
pub open spec fn default_protected() -> Seq<Seq<char>> {
    DEFAULT_PROTECTED@.map_values(|s: &'static str| s@)
}

/// The protected names, in ASCII lower case: the defaults and those that the
/// configuration adds. No configuration can take a default away.
pub open spec fn protected_names(extra: Seq<Seq<char>>) -> Set<Seq<char>> {
    Set::new(
        |n: Seq<char>|
            (exists|i: int|
                0 <= i < default_protected().len() && n == fold(#[trigger] default_protected()[i]))
                || (exists|i: int| 0 <= i < extra.len() && n == fold(#[trigger] extra[i])),
    )
}

/// A set of process names, kept in order.
pub struct NameSet {
    names: Vec<String>,
}

impl View for NameSet {
    type V = Set<Seq<char>>;

    closed spec fn view(&self) -> Set<Seq<char>> {
        texts(self.names@).to_set()
    }
}

impl NameSet {
    /// The names are in order, so that none occurs twice.
    #[verifier::type_invariant]
    spec fn ordered(self) -> bool {
        ascending(texts(self.names@))
    }

    /// The empty set.
    pub fn new() -> (r: Self)
        ensures
            r@ == Set::<Seq<char>>::empty(),
    {
        let r = NameSet { names: Vec::new() };
        assert(r@ =~= Set::<Seq<char>>::empty());
        r
    }

    /// Whether the name is in the set.
    pub fn contains(&self, name: &str) -> (r: bool)
        ensures
            r == self@.contains(name@),
    {
        let mut i: usize = 0;
        while i < self.names.len()
            invariant
                i <= self.names@.len(),
                forall|j: int| 0 <= j < i ==> (#[trigger] self.names@[j])@ != name@,
            decreases self.names@.len() - i,
        {
            if same_text(self.names[i].as_str(), name) {
                assert(texts(self.names@)[i as int] == name@);
                return true;
            }
            i = i + 1;
        }
        assert(!texts(self.names@).contains(name@)) by {
            if texts(self.names@).contains(name@) {
                let j = choose|j: int|
                    0 <= j < texts(self.names@).len() && texts(self.names@)[j] == name@;
                assert(self.names@[j]@ == name@);
            }
        }
        false
    }

    /// The set with a name added.
    pub fn with(self, name: String) -> (r: Self)
        ensures
            r@ == self@.insert(name@),
    {
        proof {
            use_type_invariant(&self);
        }
        let ghost before = texts(self.names@);
        let ghost added = name@;
        let mut names = self.names;
        insert_sorted(&mut names, name);
        assert(texts(names@).to_set() =~= before.to_set().insert(added)) by {
            assert forall|n: Seq<char>|
                #[trigger] texts(names@).to_set().contains(n) <==> before.to_set().insert(
                    added,
                ).contains(n) by {
                assert(texts(names@).contains(n) <==> before.contains(n) || n == added);
            }
        }
        NameSet { names }
    }

    /// The names in order, each once.
    pub fn names(&self) -> (r: &Vec<String>)
        ensures
            ascending(texts(r@)),
            texts(r@).no_duplicates(),
            texts(r@).to_set() == self@,
    {
        proof {
            use_type_invariant(self);
            ascending_is_distinct(texts(self.names@));
        }
        &self.names
    }
}

impl Config {
    /// The protected names, in ASCII lower case.
    pub fn protected_set(&self) -> (r: NameSet)
        ensures
            r@ == protected_names(self@.protected_extra),
    {
        let mut r = NameSet::new();
        let mut i: usize = 0;
        while i < 10
            invariant
                i <= 10,
                r@ == folded_upto(default_protected(), i as int),
            decreases 10 - i,
        {
            r = r.with(to_ascii_lowercase(DEFAULT_PROTECTED[i]));
            assert(default_protected()[i as int] == DEFAULT_PROTECTED[i as int]@);
            assert(r@ =~= folded_upto(default_protected(), i + 1));
            i = i + 1;
        }
        let ghost defaults = r@;
        let mut k: usize = 0;
        assert(r@ =~= defaults.union(folded_upto(texts(self.protected_extra@), 0)));
        while k < self.protected_extra.len()
            invariant
                k <= self.protected_extra@.len(),
                r@ == defaults.union(folded_upto(texts(self.protected_extra@), k as int)),
            decreases self.protected_extra@.len() - k,
        {
            r = r.with(to_ascii_lowercase(self.protected_extra[k].as_str()));
            assert(texts(self.protected_extra@)[k as int] == self.protected_extra@[k as int]@);
            assert(r@ =~= defaults.union(folded_upto(texts(self.protected_extra@), k + 1)));
            k = k + 1;
        }
        assert(r@ =~= protected_names(self@.protected_extra));
        r
    }
}

/// The lower-case forms of the first `n` names.
spec fn folded_upto(names: Seq<Seq<char>>, n: int) -> Set<Seq<char>> {
    Set::new(|t: Seq<char>| exists|i: int| 0 <= i < n && t == fold(#[trigger] names[i]))
}

/// A default stays protected whatever a configuration adds, and whatever it
/// adds is protected too.
pub proof fn defaults_stay_protected(extra: Seq<Seq<char>>, i: int)
    ensures
        0 <= i < default_protected().len() ==> protected_names(extra).contains(
            fold(default_protected()[i]),
        ),
        0 <= i < extra.len() ==> protected_names(extra).contains(fold(extra[i])),
{
}

// ---------------------------------------------------------------------------
// Validation
// ---------------------------------------------------------------------------
/// Why a configuration could not be used.
#[derive(Debug)]
pub enum ConfigError {
    /// The file could not be read; the text says why.
    Io(String),
    /// The file is not a configuration; the text says why.
    Toml(String),
    /// The configuration breaks a rule; the text says which.
    Validation(String),
}

impl ConfigError {
    /// The message for a reader.
    pub open spec fn message_spec(self) -> Seq<char> {
        match self {
            ConfigError::Io(e) => "io: "@ + e@,
            ConfigError::Toml(e) => "toml: "@ + e@,
            ConfigError::Validation(m) => "validation: "@ + m@,
        }
    }

    pub fn message(&self) -> (r: String)
        ensures
            r@ == self.message_spec(),
    {
        match self {
            ConfigError::Io(e) => join2("io: ", e.as_str()),
            ConfigError::Toml(e) => join2("toml: ", e.as_str()),
            ConfigError::Validation(m) => join2("validation: ", m.as_str()),
        }
    }
}

/// The first core index that does not fit a 64-bit mask.
pub open spec fn first_high_core(cores: Seq<u8>) -> Option<u8>
    decreases cores.len(),
{
    if cores.len() == 0 {
        None
    } else if cores[0] >= 64 {
        Some(cores[0])
    } else {
        first_high_core(cores.skip(1))
    }
}

/// What is wrong with an affinity whose cores must fit a 64-bit mask.
pub open spec fn high_core_problem(name: Seq<char>, cores: Seq<u8>) -> Option<Seq<char>> {
    match first_high_core(cores) {
        Some(c) => Some(
            "affinity for '"@ + name + "' has core index "@ + decimal(c as nat)
                + " >= 64 (max 63)"@,
        ),
        None => None,
    }
}

/// What is wrong with a background rule.
pub open spec fn background_problem(
    b: BackgroundView,
    protected: Set<Seq<char>>,
) -> Option<Seq<char>> {
    if is_blank(b.name) {
        Some("background rule missing name"@)
    } else if (b.suspend || b.trim_memory) && protected.contains(fold(b.name)) {
        Some("rule '"@ + b.name + "' targets a protected process with suspend/trim"@)
    } else if b.qos_cpu_quota is Some && (b.qos_cpu_quota->0 == 0 || b.qos_cpu_quota->0 > 100) {
        Some(
            "qos_cpu_quota for '"@ + b.name + "' must be 1..=100, got "@ + decimal(
                b.qos_cpu_quota->0 as nat,
            ),
        )
    } else if b.affinity is Some && b.affinity->0.len() == 0 {
        Some("affinity for '"@ + b.name + "' has no cores"@)
    } else if b.affinity is Some {
        high_core_problem(b.name, b.affinity->0)
    } else {
        None
    }
}

/// What is wrong with an always-rule.
pub open spec fn always_problem(r: AlwaysView) -> Option<Seq<char>> {
    if is_blank(r.name) {
        Some("rule missing name"@)
    } else if r.affinity is Some {
        high_core_problem(r.name, r.affinity->0)
    } else {
        None
    }
}

/// The first problem in a list of findings.
pub open spec fn first_problem(findings: Seq<Option<Seq<char>>>) -> Option<Seq<char>>
    decreases findings.len(),
{
    if findings.len() == 0 {
        None
    } else if findings[0] is Some {
        findings[0]
    } else {
        first_problem(findings.skip(1))
    }
}

/// The findings on every background rule, then on every always-rule.
pub open spec fn findings(c: ConfigView) -> Seq<Option<Seq<char>>> {
    c.background.map_values(
        |b: BackgroundView| background_problem(b, protected_names(c.protected_extra)),
    ) + c.rule.map_values(|r: AlwaysView| always_problem(r))
}

/// The first problem of a configuration.
pub open spec fn config_problem(c: ConfigView) -> Option<Seq<char>> {
    first_problem(findings(c))
}

/// A background rule that a configuration may hold: it has a name, does not
/// suspend or trim a protected process, its quota is a percentage and its
/// affinity names cores that fit a 64-bit mask.
pub open spec fn background_allowed(b: BackgroundView, protected: Set<Seq<char>>) -> bool {
    &&& !is_blank(b.name)
    &&& (b.suspend || b.trim_memory) ==> !protected.contains(fold(b.name))
    &&& b.qos_cpu_quota is Some ==> 1 <= b.qos_cpu_quota->0 <= 100
    &&& b.affinity is Some ==> b.affinity->0.len() > 0 && forall|i: int|
        0 <= i < b.affinity->0.len() ==> #[trigger] b.affinity->0[i] < 64
}

/// An always-rule that a configuration may hold.
pub open spec fn always_allowed(r: AlwaysView) -> bool {
    &&& !is_blank(r.name)
    &&& r.affinity is Some ==> forall|i: int|
        0 <= i < r.affinity->0.len() ==> #[trigger] r.affinity->0[i] < 64
}

/// A configuration whose rules are all allowed.
pub open spec fn valid_config(c: ConfigView) -> bool {
    &&& forall|i: int|
        0 <= i < c.background.len() ==> background_allowed(
            #[trigger] c.background[i],
            protected_names(c.protected_extra),
        )
    &&& forall|i: int| 0 <= i < c.rule.len() ==> always_allowed(#[trigger] c.rule[i])
}

/// No core is too high exactly when each fits a 64-bit mask.
pub proof fn high_core_means(cores: Seq<u8>)
    ensures
        first_high_core(cores) is None <==> forall|i: int|
            0 <= i < cores.len() ==> #[trigger] cores[i] < 64,
    decreases cores.len(),
{
    if cores.len() > 0 && cores[0] < 64 {
        high_core_means(cores.skip(1));
        if first_high_core(cores) is None {
            assert forall|i: int| 0 <= i < cores.len() implies #[trigger] cores[i] < 64 by {
                if i > 0 {
                    assert(cores.skip(1)[i - 1] == cores[i]);
                }
            }
        }
    }
}

proof fn no_problem_means(findings: Seq<Option<Seq<char>>>)
    ensures
        first_problem(findings) is None <==> forall|i: int|
            0 <= i < findings.len() ==> #[trigger] findings[i] is None,
    decreases findings.len(),
{
    if findings.len() > 0 && findings[0] is None {
        no_problem_means(findings.skip(1));
        if first_problem(findings) is None {
            assert forall|i: int| 0 <= i < findings.len() implies #[trigger] findings[i] is None by {
                if i > 0 {
                    assert(findings.skip(1)[i - 1] == findings[i]);
                }
            }
        }
    }
}

/// A configuration has no problem exactly when every rule in it is allowed.
pub proof fn no_problem_means_valid(c: ConfigView)
    ensures
        config_problem(c) is None <==> valid_config(c),
{
    let f = findings(c);
    let n = c.background.len() as int;
    no_problem_means(f);
    assert forall|i: int| 0 <= i < c.background.len() implies (f[i] is None
        <==> background_allowed(#[trigger] c.background[i], protected_names(c.protected_extra))) by {
        let b = c.background[i];
        if b.affinity is Some {
            high_core_means(b.affinity->0);
        }
    }
    assert forall|i: int| 0 <= i < c.rule.len() implies (f[n + i] is None <==> always_allowed(
        #[trigger] c.rule[i],
    )) by {
        let r = c.rule[i];
        if r.affinity is Some {
            high_core_means(r.affinity->0);
        }
    }
    if valid_config(c) {
        assert forall|i: int| 0 <= i < f.len() implies #[trigger] f[i] is None by {
            if i < n {
                assert(background_allowed(c.background[i], protected_names(c.protected_extra)));
            } else {
                assert(always_allowed(c.rule[i - n]));
            }
        }
    }
    if config_problem(c) is None {
        assert forall|i: int| 0 <= i < c.rule.len() implies always_allowed(#[trigger] c.rule[i]) by {
            assert(f[n + i] is None);
        }
        assert forall|i: int| 0 <= i < n implies background_allowed(
            #[trigger] c.background[i],
            protected_names(c.protected_extra),
        ) by {
            assert(f[i] is None);
        }
    }
}

fn find_high_core(cores: &Vec<u8>) -> (r: Option<u8>)
    ensures
        r == first_high_core(cores@),
{
    let mut i: usize = 0;
    assert(cores@.skip(0) =~= cores@);
    while i < cores.len()
        invariant
            i <= cores@.len(),
            first_high_core(cores@) == first_high_core(cores@.skip(i as int)),
        decreases cores@.len() - i,
    {
        if cores[i] >= 64 {
            return Some(cores[i]);
        }
        assert(cores@.skip(i as int).skip(1) =~= cores@.skip(i + 1));
        i = i + 1;
    }
    None
}

fn check_high_core(name: &str, cores: &Vec<u8>) -> (r: Option<String>)
    ensures
        text_in(r) == high_core_problem(name@, cores@),
{
    match find_high_core(cores) {
        Some(c) => {
            let mut m = join2("affinity for '", name);
            m.append("' has core index ");
            m.append(decimal_text(c as u64).as_str());
            m.append(" >= 64 (max 63)");
            Some(m)
        },
        None => None,
    }
}

fn check_background(b: &BackgroundRule, protected: &NameSet) -> (r: Option<String>)
    ensures
        text_in(r) == background_problem(b@, protected@),
{
    if is_blank_text(b.name.as_str()) {
        return Some(copy_text("background rule missing name"));
    }
    if b.suspend || b.trim_memory {
        let low = to_ascii_lowercase(b.name.as_str());
        if protected.contains(low.as_str()) {
            let mut m = join2("rule '", b.name.as_str());
            m.append("' targets a protected process with suspend/trim");
            return Some(m);
        }
    }
    if let Some(q) = b.qos_cpu_quota {
        if q == 0 || q > 100 {
            let mut m = join2("qos_cpu_quota for '", b.name.as_str());
            m.append("' must be 1..=100, got ");
            m.append(decimal_text(q as u64).as_str());
            return Some(m);
        }
    }
    match &b.affinity {
        Some(a) => {
            if a.cores.len() == 0 {
                let mut m = join2("affinity for '", b.name.as_str());
                m.append("' has no cores");
                return Some(m);
            }
            check_high_core(b.name.as_str(), &a.cores)
        },
        None => None,
    }
}

fn check_always(rule: &AlwaysRule) -> (r: Option<String>)
    ensures
        text_in(r) == always_problem(rule@),
{
    if is_blank_text(rule.name.as_str()) {
        return Some(copy_text("rule missing name"));
    }
    match &rule.affinity {
        Some(a) => check_high_core(rule.name.as_str(), &a.cores),
        None => None,
    }
}

impl Config {
    /// Checks every rule; the error names the first problem.
    pub fn validate(&self) -> (r: Result<(), ConfigError>)
        ensures
            r is Ok <==> config_problem(self@) is None,
            r is Ok <==> valid_config(self@),
            r is Err ==> r->Err_0 is Validation && r->Err_0->Validation_0@ == config_problem(
                self@,
            )->0,
    {
        proof {
            no_problem_means_valid(self@);
        }
        let protected = self.protected_set();
        let ghost all = findings(self@);
        let mut i: usize = 0;
        assert(all.skip(0) =~= all);
        while i < self.background.len()
            invariant
                i <= self.background@.len(),
                all == findings(self@),
                config_problem(self@) is None <==> valid_config(self@),
                protected@ == protected_names(self@.protected_extra),
                first_problem(all) == first_problem(all.skip(i as int)),
            decreases self.background@.len() - i,
        {
            let found = check_background(&self.background[i], &protected);
            assert(all.skip(i as int)[0] == text_in(found));
            if let Some(m) = found {
                return Err(ConfigError::Validation(m));
            }
            assert(all.skip(i as int).skip(1) =~= all.skip(i + 1));
            i = i + 1;
        }
        let mut k: usize = 0;
        let n: usize = self.background.len();
        while k < self.rule.len()
            invariant
                k <= self.rule@.len(),
                n == self.background@.len(),
                all == findings(self@),
                config_problem(self@) is None <==> valid_config(self@),
                first_problem(all) == first_problem(all.skip(n + k)),
            decreases self.rule@.len() - k,
        {
            let found = check_always(&self.rule[k]);
            assert(all.skip(n + k)[0] == text_in(found));
            if let Some(m) = found {
                return Err(ConfigError::Validation(m));
            }
            assert(all.skip(n + k).skip(1) =~= all.skip(n + k + 1));
            k = k + 1;
        }
        Ok(())
    }
}

/// A host with `cpus` logical processors (0 where that is unknown) lacks some
/// core.
pub open spec fn exceeds_host(cores: Seq<u8>, cpus: u32) -> bool {
    cpus > 0 && exists|i: int| 0 <= i < cores.len() && #[trigger] cores[i] as int >= cpus
}

/// The warning on a rule whose affinity names cores that the host lacks.
pub open spec fn host_warning(
    name: Seq<char>,
    affinity: Option<Seq<u8>>,
    cpus: u32,
) -> Option<Seq<char>> {
    if affinity is Some && exceeds_host(affinity->0, cpus) {
        Some(
            "rule '"@ + name + "' affinity cores exceed logical CPU count ("@ + decimal(
                cpus as nat,
            ) + ") on this host"@,
        )
    } else {
        None
    }
}

/// The findings that hold something, in order.
pub open spec fn present(findings: Seq<Option<Seq<char>>>) -> Seq<Seq<char>>
    decreases findings.len(),
{
    if findings.len() == 0 {
        Seq::empty()
    } else {
        match findings.last() {
            Some(m) => present(findings.drop_last()).push(m),
            None => present(findings.drop_last()),
        }
    }
}

/// The warnings on every background rule, then on every always-rule.
pub open spec fn host_findings(c: ConfigView, cpus: u32) -> Seq<Option<Seq<char>>> {
    c.background.map_values(|b: BackgroundView| host_warning(b.name, b.affinity, cpus))
        + c.rule.map_values(|r: AlwaysView| host_warning(r.name, r.affinity, cpus))
}

fn check_host(name: &str, affinity: &Option<AffinitySpec>, cpus: u32) -> (r: Option<String>)
    ensures
        text_in(r) == host_warning(name@, cores_of(*affinity), cpus),
{
    if let Some(a) = affinity {
        if cpus > 0 {
            let mut i: usize = 0;
            while i < a.cores.len()
                invariant
                    i <= a.cores@.len(),
                    cpus > 0,
                    *affinity == Some(*a),
                    forall|j: int| 0 <= j < i ==> (#[trigger] a.cores@[j] as int) < cpus,
                decreases a.cores@.len() - i,
            {
                if a.cores[i] as u32 >= cpus {
                    let mut m = join2("rule '", name);
                    m.append("' affinity cores exceed logical CPU count (");
                    m.append(decimal_text(cpus as u64).as_str());
                    m.append(") on this host");
                    assert(a.cores@[i as int] as int >= cpus);
                    return Some(m);
                }
                i = i + 1;
            }
        }
    }
    None
}

impl Config {
    /// Warnings on affinities that name cores beyond the `cpus` logical
    /// processors of the host (0: unknown, no warnings). They never make a
    /// configuration invalid.
    pub fn host_warnings(&self, cpus: u32) -> (r: Vec<String>)
        ensures
            texts(r@) == present(host_findings(self@, cpus)),
    {
        let ghost all = host_findings(self@, cpus);
        let mut r: Vec<String> = Vec::new();
        let mut i: usize = 0;
        assert(all.take(0) =~= Seq::<Option<Seq<char>>>::empty());
        assert(texts(r@) =~= present(all.take(0)));
        while i < self.background.len()
            invariant
                i <= self.background@.len(),
                all == host_findings(self@, cpus),
                texts(r@) == present(all.take(i as int)),
            decreases self.background@.len() - i,
        {
            let b = &self.background[i];
            let found = check_host(b.name.as_str(), &b.affinity, cpus);
            assert(all.take(i + 1).last() == text_in(found));
            assert(all.take(i + 1).drop_last() =~= all.take(i as int));
            if let Some(m) = found {
                let ghost before = r@;
                r.push(m);
                assert(texts(r@) =~= texts(before).push(m@));
            }
            i = i + 1;
        }
        let mut k: usize = 0;
        let n: usize = self.background.len();
        while k < self.rule.len()
            invariant
                k <= self.rule@.len(),
                n == self.background@.len(),
                all == host_findings(self@, cpus),
                texts(r@) == present(all.take(n + k)),
            decreases self.rule@.len() - k,
        {
            let rule = &self.rule[k];
            let found = check_host(rule.name.as_str(), &rule.affinity, cpus);
            assert(all.take(n + k + 1).last() == text_in(found));
            assert(all.take(n + k + 1).drop_last() =~= all.take(n + k));
            if let Some(m) = found {
                let ghost before = r@;
                r.push(m);
                assert(texts(r@) =~= texts(before).push(m@));
            }
            k = k + 1;
        }
        assert(all.take(n + k) =~= all);
        r
    }
}

} // verus!
