//! The folder administrator: owns the loaded rules, decides which
//! configured directories are missing, and decides where each file of
//! one directory scan belongs.  Every decision is made here on plain
//! values; the embedding program performs the filesystem work.

use vstd::prelude::*;

use crate::CONFIG_FILE_NAME;
use crate::ConfigError;
use crate::json::parse_json;
use crate::rules::RuleModel;
use crate::rules::SubdirRule;
use crate::rules::parse_config_spec;
use crate::rules::rules_from_json;
use crate::text::extension_of;
use crate::text::file_extension;
use crate::text::lower_of;
use crate::text::lowercase;

verus! {

/// One entry of the working directory, as the embedding program saw
/// it: the entry's name and whether it is a regular file.
pub struct DirEntry {
    pub name: String,
    pub is_file: bool,
}

/// Mathematical model of a directory entry.
pub struct EntryModel {
    pub name: Seq<char>,
    pub is_file: bool,
}

impl View for DirEntry {
    type V = EntryModel;

    open spec fn view(&self) -> EntryModel {
        EntryModel { name: self.name@, is_file: self.is_file }
    }
}

impl DeepView for DirEntry {
    type V = EntryModel;

    open spec fn deep_view(&self) -> EntryModel {
        self.view()
    }
}

/// One planned move: the file keeps its name and goes into the given
/// directory.
pub struct MoveOp {
    pub filename: String,
    pub dest_dir: String,
}

/// Mathematical model of a planned move.
pub struct MoveModel {
    pub filename: Seq<char>,
    pub dest_dir: Seq<char>,
}

impl View for MoveOp {
    type V = MoveModel;

    open spec fn view(&self) -> MoveModel {
        MoveModel { filename: self.filename@, dest_dir: self.dest_dir@ }
    }
}

impl DeepView for MoveOp {
    type V = MoveModel;

    open spec fn deep_view(&self) -> MoveModel {
        self.view()
    }
}

/// Owns the configuration: an ordered rule sequence, the verbose
/// flag, and the list of file names that are never classified or
/// moved.  All fields are fixed at construction.
pub struct FolderAdministrator {
    pub config: Vec<SubdirRule>,
    pub verbose: bool,
    pub file_ignore_list: Vec<String>,
}

/// Mathematical model of a [`FolderAdministrator`].
pub struct AdminModel {
    pub config: Seq<RuleModel>,
    pub verbose: bool,
    pub file_ignore_list: Seq<Seq<char>>,
}

impl View for FolderAdministrator {
    type V = AdminModel;

    open spec fn view(&self) -> AdminModel {
        AdminModel {
            config: self.config.deep_view(),
            verbose: self.verbose,
            file_ignore_list: self.file_ignore_list.deep_view(),
        }
    }
}

/// Whether a rule claims this (lowercase) extension.
pub open spec fn rule_claims(r: RuleModel, ext: Seq<char>) -> bool {
    r.extensions.contains(ext)
}

/// The directory of the first rule claiming this extension, if any:
/// the overlap policy is first-match-wins.
pub open spec fn first_match(rules: Seq<RuleModel>, ext: Seq<char>) -> Option<Seq<char>>
    decreases rules.len(),
{
    if rules.len() == 0 {
        None
    } else if rule_claims(rules[0], ext) {
        Some(rules[0].dirname)
    } else {
        first_match(rules.drop_first(), ext)
    }
}

/// Destination directory for a file of this name: its extension,
/// folded to lowercase, decides; a name without an extension goes
/// nowhere.
pub open spec fn classify_spec(rules: Seq<RuleModel>, name: Seq<char>) -> Option<Seq<char>> {
    match extension_of(name) {
        Some(e) => first_match(rules, lower_of(e)),
        None => None,
    }
}

/// Where one directory entry moves: nowhere when its name is ignored
/// or it is not a regular file, else as [`classify_spec`] says.
pub open spec fn should_move(m: AdminModel, name: Seq<char>, is_file: bool) -> Option<
    Seq<char>,
> {
    if m.file_ignore_list.contains(name) || !is_file {
        None
    } else {
        classify_spec(m.config, name)
    }
}

/// The moves one scan plans, in entry order: one move at most per
/// entry, as [`should_move`] says.
pub open spec fn plan_spec(m: AdminModel, entries: Seq<EntryModel>) -> Seq<MoveModel>
    decreases entries.len(),
{
    if entries.len() == 0 {
        Seq::empty()
    } else {
        let head = match should_move(m, entries[0].name, entries[0].is_file) {
            Some(d) => seq![MoveModel { filename: entries[0].name, dest_dir: d }],
            None => Seq::empty(),
        };
        head + plan_spec(m, entries.drop_first())
    }
}

/// The directories one pass creates: each configured directory name
/// that is not present yet, once, in rule order.
pub open spec fn dirs_plan(rules: Seq<RuleModel>, existing: Seq<Seq<char>>) -> Seq<Seq<char>>
    decreases rules.len(),
{
    if rules.len() == 0 {
        Seq::empty()
    } else if existing.contains(rules[0].dirname) {
        dirs_plan(rules.drop_first(), existing)
    } else {
        seq![rules[0].dirname] + dirs_plan(rules.drop_first(), existing.push(rules[0].dirname))
    }
}

/// Membership in a concatenation is membership in either part.
proof fn lemma_contains_add<A>(a: Seq<A>, b: Seq<A>, x: A)
    ensures
        (a + b).contains(x) <==> a.contains(x) || b.contains(x),
{
    if a.contains(x) {
        let k = choose|k: int| 0 <= k < a.len() && a[k] == x;
        assert((a + b)[k] == x);
    }
    if b.contains(x) {
        let k = choose|k: int| 0 <= k < b.len() && b[k] == x;
        assert((a + b)[a.len() + k] == x);
    }
    if (a + b).contains(x) {
        let k = choose|k: int| 0 <= k < (a + b).len() && (a + b)[k] == x;
        if k < a.len() {
            assert(a[k] == x);
        } else {
            assert(b[k - a.len()] == x);
        }
    }
}

/// Whether some element of `v` reads the same as `s`.
fn contains_string(v: &Vec<String>, s: &String) -> (r: bool)
    ensures
        r == v.deep_view().contains(s@),
{
    let mut i: usize = 0;
    while i < v.len()
        invariant
            0 <= i <= v@.len(),
            forall|k: int| 0 <= k < i ==> (#[trigger] v@[k])@ != s@,
        decreases v@.len() - i,
    {
        if v[i] == *s {
            proof {
                assert(v.deep_view()[i as int] == s@);
            }
            return true;
        }
        i = i + 1;
    }
    proof {
        assert forall|k: int| 0 <= k < v.deep_view().len() implies v.deep_view()[k] != s@ by {
            assert(v.deep_view()[k] == (#[trigger] v@[k])@);
        }
    }
    false
}

impl FolderAdministrator {
    /// Builds an administrator from configuration text and a verbose
    /// flag, as construction does after the embedding program has read
    /// the configuration file.  The rules are the text's, in source
    /// order; the ignore list holds exactly the configuration file's
    /// own name; a text that [`parse_config_spec`] rejects is refused
    /// with the same error.
    pub fn load_from_str(text: &str, verbose: bool) -> (r: Result<
        FolderAdministrator,
        ConfigError,
    >)
        ensures
            match r {
                Ok(a) => {
                    &&& parse_config_spec(text@) == Ok::<Seq<RuleModel>, ConfigError>(a@.config)
                    &&& a@.verbose == verbose
                    &&& a@.file_ignore_list == seq![CONFIG_FILE_NAME@]
                },
                Err(e) => parse_config_spec(text@) == Err::<Seq<RuleModel>, ConfigError>(e),
            },
    {
        let doc_opt = parse_json(text);
        if doc_opt.is_none() {
            return Err(ConfigError::Malformed);
        }
        let doc = doc_opt.unwrap();
        match rules_from_json(&doc) {
            Ok(config) => {
                let mut file_ignore_list: Vec<String> = Vec::new();
                file_ignore_list.push(String::from_str(CONFIG_FILE_NAME));
                let a = FolderAdministrator { config, verbose, file_ignore_list };
                proof {
                    assert(a@.file_ignore_list =~= seq![CONFIG_FILE_NAME@]);
                }
                Ok(a)
            },
            Err(e) => Err(e),
        }
    }

    /// Destination directory for a file of this name, as
    /// [`classify_spec`] says: the extension is folded to lowercase
    /// and the first rule claiming it wins.
    #[verifier::loop_isolation(false)]
    pub fn classify(&self, name: &str) -> (r: Option<String>)
        ensures
            match r {
                Some(d) => classify_spec(self@.config, name@) == Some(d@),
                None => classify_spec(self@.config, name@) is None,
            },
    {
        let ext_opt = file_extension(name);
        if ext_opt.is_none() {
            return None;
        }
        let ext = ext_opt.unwrap();
        let low = lowercase(ext.as_str());
        let ghost rules = self@.config;
        proof {
            assert(rules.skip(0) =~= rules);
        }
        let mut i: usize = 0;
        while i < self.config.len()
            invariant
                0 <= i <= self.config@.len(),
                first_match(rules, low@) == first_match(rules.skip(i as int), low@),
            decreases self.config@.len() - i,
        {
            proof {
                assert(rules[i as int] == (#[trigger] self.config@[i as int])@);
                assert(rules.skip(i as int)[0] == rules[i as int]);
                assert(rules.skip(i as int).drop_first() =~= rules.skip(i as int + 1));
            }
            if contains_string(&self.config[i].extensions, &low) {
                return Some(self.config[i].dirname.clone());
            }
            i = i + 1;
        }
        proof {
            assert(rules.skip(rules.len() as int).len() == 0);
        }
        None
    }

    /// Plans the moves of one directory scan, as [`plan_spec`] says:
    /// in entry order, skipping ignored names and non-files, one move
    /// at most per entry, first-match-wins.
    #[verifier::loop_isolation(false)]
    pub fn plan_moves(&self, entries: &Vec<DirEntry>) -> (r: Vec<MoveOp>)
        ensures
            r.deep_view() == plan_spec(self@, entries.deep_view()),
    {
        let ghost m = self@;
        let ghost es = entries.deep_view();
        let mut out: Vec<MoveOp> = Vec::new();
        proof {
            assert(es.skip(0) =~= es);
            assert(out.deep_view() + plan_spec(m, es) =~= plan_spec(m, es));
        }
        let mut i: usize = 0;
        while i < entries.len()
            invariant
                0 <= i <= entries@.len(),
                plan_spec(m, es) == out.deep_view() + plan_spec(m, es.skip(i as int)),
            decreases entries@.len() - i,
        {
            proof {
                assert(es[i as int] == (#[trigger] entries@[i as int])@);
                assert(es.skip(i as int)[0] == es[i as int]);
                assert(es.skip(i as int).drop_first() =~= es.skip(i as int + 1));
            }
            let ghost old_out = out.deep_view();
            let entry = &entries[i];
            let ignored = contains_string(&self.file_ignore_list, &entry.name);
            let mut moved: bool = false;
            let ghost step = should_move(m, es[i as int].name, es[i as int].is_file);
            if !ignored && entry.is_file {
                match self.classify(entry.name.as_str()) {
                    Some(dest) => {
                        out.push(MoveOp { filename: entry.name.clone(), dest_dir: dest });
                        proof {
                            assert(step == Some(out.deep_view()[old_out.len() as int].dest_dir));
                            assert(out.deep_view() =~= old_out + seq![
                                MoveModel { filename: es[i as int].name, dest_dir: step->Some_0 },
                            ]);
                        }
                    },
                    None => {
                        proof {
                            assert(step is None);
                        }
                    },
                }
            } else {
                proof {
                    assert(step is None);
                }
            }
            proof {
                let head = match step {
                    Some(d) => seq![MoveModel { filename: es[i as int].name, dest_dir: d }],
                    None => Seq::<MoveModel>::empty(),
                };
                assert(plan_spec(m, es.skip(i as int)) == head + plan_spec(
                    m,
                    es.skip(i as int + 1),
                ));
                assert(out.deep_view() =~= old_out + head);
                assert((old_out + head) + plan_spec(m, es.skip(i as int + 1)) =~= old_out + (head
                    + plan_spec(m, es.skip(i as int + 1))));
            }
            i = i + 1;
        }
        proof {
            assert(es.skip(es.len() as int).len() == 0);
            assert(out.deep_view() + plan_spec(m, es.skip(es.len() as int)) =~= out.deep_view());
        }
        out
    }

    /// The directories one pass of directory creation makes, as
    /// [`dirs_plan`] says: each configured directory name not among
    /// the existing ones, once, in rule order.
    #[verifier::loop_isolation(false)]
    pub fn dirs_to_create(&self, existing: &Vec<String>) -> (r: Vec<String>)
        ensures
            r.deep_view() == dirs_plan(self@.config, existing.deep_view()),
    {
        let ghost rules = self@.config;
        let ghost e0 = existing.deep_view();
        let mut out: Vec<String> = Vec::new();
        proof {
            assert(rules.skip(0) =~= rules);
            assert(out.deep_view() + dirs_plan(rules, e0) =~= dirs_plan(rules, e0));
            assert(e0 + out.deep_view() =~= e0);
        }
        let mut i: usize = 0;
        while i < self.config.len()
            invariant
                0 <= i <= self.config@.len(),
                dirs_plan(rules, e0) == out.deep_view() + dirs_plan(
                    rules.skip(i as int),
                    e0 + out.deep_view(),
                ),
            decreases self.config@.len() - i,
        {
            proof {
                assert(rules[i as int] == (#[trigger] self.config@[i as int])@);
                assert(rules.skip(i as int)[0] == rules[i as int]);
                assert(rules.skip(i as int).drop_first() =~= rules.skip(i as int + 1));
            }
            let ghost old_out = out.deep_view();
            let ghost d = rules[i as int].dirname;
            let dirname = &self.config[i].dirname;
            let in_existing = contains_string(existing, dirname);
            let in_out = contains_string(&out, dirname);
            proof {
                lemma_contains_add(e0, old_out, d);
            }
            if !in_existing && !in_out {
                out.push(dirname.clone());
                proof {
                    assert(out.deep_view() =~= old_out + seq![d]);
                    assert((e0 + old_out).push(d) =~= e0 + out.deep_view());
                    assert((old_out + seq![d]) + dirs_plan(
                        rules.skip(i as int + 1),
                        (e0 + old_out).push(d),
                    ) =~= old_out + (seq![d] + dirs_plan(
                        rules.skip(i as int + 1),
                        (e0 + old_out).push(d),
                    )));
                }
            }
            i = i + 1;
        }
        proof {
            assert(rules.skip(rules.len() as int).len() == 0);
            assert(out.deep_view() + dirs_plan(
                rules.skip(rules.len() as int),
                e0 + out.deep_view(),
            ) =~= out.deep_view());
        }
        out
    }
}

/// When every configured directory name is already present, a pass
/// plans nothing.
proof fn lemma_dirs_plan_all_present(rules: Seq<RuleModel>, existing: Seq<Seq<char>>)
    requires
        forall|k: int| 0 <= k < rules.len() ==> existing.contains((#[trigger] rules[k]).dirname),
    ensures
        dirs_plan(rules, existing).len() == 0,
    decreases rules.len(),
{
    if rules.len() > 0 {
        assert(rules.drop_first() =~= rules.skip(1));
        assert forall|k: int| 0 <= k < rules.drop_first().len() implies existing.contains(
            (#[trigger] rules.drop_first()[k]).dirname,
        ) by {
            assert(rules.drop_first()[k] == rules[k + 1]);
        }
        lemma_dirs_plan_all_present(rules.drop_first(), existing);
    }
}

/// After one pass, every configured directory name is present: it was
/// there before, or the pass planned it.
proof fn lemma_dirs_plan_covers(rules: Seq<RuleModel>, existing: Seq<Seq<char>>)
    ensures
        forall|k: int| 0 <= k < rules.len() ==> (existing + dirs_plan(rules, existing)).contains(
            (#[trigger] rules[k]).dirname,
        ),
    decreases rules.len(),
{
    if rules.len() > 0 {
        let d = rules[0].dirname;
        let rest = rules.drop_first();
        if existing.contains(d) {
            lemma_dirs_plan_covers(rest, existing);
            let plan = dirs_plan(rules, existing);
            assert forall|k: int| 0 <= k < rules.len() implies (existing + plan).contains(
                (#[trigger] rules[k]).dirname,
            ) by {
                lemma_contains_add(existing, plan, rules[k].dirname);
                if k == 0 {
                } else {
                    assert(rest[k - 1] == rules[k]);
                    lemma_contains_add(existing, dirs_plan(rest, existing), rules[k].dirname);
                }
            }
        } else {
            lemma_dirs_plan_covers(rest, existing.push(d));
            let plan_rest = dirs_plan(rest, existing.push(d));
            let plan = dirs_plan(rules, existing);
            assert(plan == seq![d] + plan_rest);
            assert(existing.push(d) =~= existing + seq![d]);
            assert forall|k: int| 0 <= k < rules.len() implies (existing + plan).contains(
                (#[trigger] rules[k]).dirname,
            ) by {
                lemma_contains_add(existing, plan, rules[k].dirname);
                if k == 0 {
                    assert(plan[0] == d);
                } else {
                    assert(rest[k - 1] == rules[k]);
                    lemma_contains_add(existing.push(d), plan_rest, rules[k].dirname);
                    lemma_contains_add(existing, seq![d], rules[k].dirname);
                    lemma_contains_add(seq![d], plan_rest, rules[k].dirname);
                    assert(seq![d].contains(rules[k].dirname) ==> seq![d][0] == rules[k].dirname);
                    assert(plan.contains(rules[k].dirname) <==> (seq![d] + plan_rest).contains(
                        rules[k].dirname,
                    ));
                }
            }
        }
    }
}

/// Creating directories is idempotent: once one pass has created the
/// directories it planned, a second pass over the grown directory set
/// plans nothing, so the directory set stays as it is.
pub proof fn lemma_create_dirs_idempotent(rules: Seq<RuleModel>, existing: Seq<Seq<char>>)
    ensures
        dirs_plan(rules, existing + dirs_plan(rules, existing)) == Seq::<Seq<char>>::empty(),
{
    lemma_dirs_plan_covers(rules, existing);
    lemma_dirs_plan_all_present(rules, existing + dirs_plan(rules, existing));
    assert(dirs_plan(rules, existing + dirs_plan(rules, existing)) =~= Seq::<Seq<char>>::empty());
}

/// First-match-wins: the earliest rule claiming the extension decides
/// the destination; rules after it are not consulted.
pub proof fn lemma_first_match_wins(rules: Seq<RuleModel>, ext: Seq<char>, i: int)
    requires
        0 <= i < rules.len(),
        rule_claims(rules[i], ext),
        forall|j: int| 0 <= j < i ==> !rule_claims(#[trigger] rules[j], ext),
    ensures
        first_match(rules, ext) == Some(rules[i].dirname),
    decreases i,
{
    if i > 0 {
        assert(!rule_claims(rules[0], ext));
        assert forall|j: int| 0 <= j < i - 1 implies !rule_claims(
            #[trigger] rules.drop_first()[j],
            ext,
        ) by {
            assert(rules.drop_first()[j] == rules[j + 1]);
        }
        assert(rules.drop_first()[i - 1] == rules[i]);
        lemma_first_match_wins(rules.drop_first(), ext, i - 1);
    }
}

/// A file without an extension stays in place, whatever the
/// configuration.
pub proof fn lemma_no_extension_stays(m: AdminModel, name: Seq<char>, is_file: bool)
    requires
        extension_of(name) is None,
    ensures
        should_move(m, name, is_file) is None,
{
}

/// An ignored file name — the configuration file's own name stands on
/// the ignore list from construction on — is never planned for a move,
/// whatever its extension.
pub proof fn lemma_ignored_never_planned(m: AdminModel, entries: Seq<EntryModel>, name: Seq<char>)
    requires
        m.file_ignore_list.contains(name),
    ensures
        forall|k: int| 0 <= k < plan_spec(m, entries).len() ==> (#[trigger] plan_spec(
            m,
            entries,
        )[k]).filename != name,
    decreases entries.len(),
{
    if entries.len() > 0 {
        lemma_ignored_never_planned(m, entries.drop_first(), name);
        let head = match should_move(m, entries[0].name, entries[0].is_file) {
            Some(d) => seq![MoveModel { filename: entries[0].name, dest_dir: d }],
            None => Seq::<MoveModel>::empty(),
        };
        let rest = plan_spec(m, entries.drop_first());
        assert(plan_spec(m, entries) == head + rest);
        assert forall|k: int| 0 <= k < plan_spec(m, entries).len() implies (#[trigger] plan_spec(
            m,
            entries,
        )[k]).filename != name by {
            if k < head.len() {
                assert(plan_spec(m, entries)[k] == head[k]);
                assert(should_move(m, entries[0].name, entries[0].is_file) is Some);
                assert(entries[0].name != name);
            } else {
                assert(plan_spec(m, entries)[k] == rest[k - head.len()]);
            }
        }
    }
}

} // verus!

