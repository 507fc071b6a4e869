//! Prompt templates with `{{name}}` variables, and the other files that a
//! workspace keeps beside them: skills and proposals.
use vstd::prelude::*;

use crate::chars;
use crate::chars::CharSet;
use crate::numbers;
use crate::prompt_texts::{
    ADJUST_META_DEFAULT, MINIHOW_DEFAULT, MINIWHAT_DEFAULT, MINIWHY_DEFAULT,
};
use crate::table;
use crate::table::{Row, Table};
use crate::text;
use crate::types::MessageClass;

verus! {

/// The text files of a workspace, each directory a table from file names to
/// contents. Templates are installed once; every later read goes through the
/// tables, so edits by the operator or the advisor take effect.
#[derive(Debug)]
pub struct PromptStore {
    pub workspace: String,
    pub prompts: Table,
    pub skills: Table,
    pub proposals: Table,
}

/// The contents of a workspace.
pub ghost struct StoreModel {
    pub workspace: Seq<char>,
    pub prompts: Seq<Row>,
    pub skills: Seq<Row>,
    pub proposals: Seq<Row>,
}

impl View for PromptStore {
    type V = StoreModel;

    open spec fn view(&self) -> StoreModel {
        StoreModel {
            workspace: self.workspace@,
            prompts: self.prompts@,
            skills: self.skills@,
            proposals: self.proposals@,
        }
    }
}

/// The template of a class as it is installed.
pub open spec fn default_of(class: MessageClass) -> Seq<char> {
    match class {
        MessageClass::MiniHow => MINIHOW_DEFAULT@,
        MessageClass::MiniWhy => MINIWHY_DEFAULT@,
        MessageClass::MiniWhat => MINIWHAT_DEFAULT@,
    }
}

/// The file name of a class's template.
pub open spec fn class_file(class: MessageClass) -> Seq<char> {
    class.name() + ".md"@
}

/// The file name of the overlay of a class for one subclass.
pub open spec fn subclass_file(class: MessageClass, subclass: Seq<char>) -> Seq<char> {
    class.name() + "."@ + subclass + ".md"@
}

/// The row that is there, or a new one.
pub open spec fn put_if_absent(rows: Seq<Row>, key: Seq<char>, value: Seq<char>) -> Seq<Row> {
    if table::lookup(rows, key) is Some {
        rows
    } else {
        table::put(rows, key, value)
    }
}

/// The directory with the four default templates, as far as they were missing.
pub open spec fn installed(rows: Seq<Row>) -> Seq<Row> {
    put_if_absent(
        put_if_absent(
            put_if_absent(
                put_if_absent(rows, "minihow.md"@, MINIHOW_DEFAULT@),
                "miniwhy.md"@,
                MINIWHY_DEFAULT@,
            ),
            "miniwhat.md"@,
            MINIWHAT_DEFAULT@,
        ),
        "adjust-meta.md"@,
        ADJUST_META_DEFAULT@,
    )
}

/// A value, or a default for it.
pub open spec fn value_or(v: Option<Seq<char>>, default: Seq<char>) -> Seq<char> {
    match v {
        Some(s) => s,
        None => default,
    }
}

/// A variable as it stands in a template.
pub open spec fn variable(name: Seq<char>) -> Seq<char> {
    "{{"@ + name + "}}"@
}

/// The template with the variables replaced, one after the other.
pub open spec fn substituted(template: Seq<char>, vars: Seq<Row>) -> Seq<char>
    decreases vars.len(),
{
    if vars.len() == 0 {
        template
    } else {
        chars::replace(
            substituted(template, vars.drop_last()),
            variable(vars.last().0),
            vars.last().1,
        )
    }
}

/// Variables by their texts.
pub open spec fn bindings(vars: Seq<(&str, &str)>) -> Seq<Row> {
    vars.map_values(|v: (&str, &str)| (v.0@, v.1@))
}

/// The number of a rule line: digits, a dot and a space, behind white space.
pub open spec fn rule_number(line: Seq<char>) -> Option<nat> {
    let t = chars::trim_start(line);
    let end = chars::until(t, CharSet::NotDigit) as int;
    if end == 0 || end >= t.len() || !chars::starts_with(t.skip(end), ". "@) {
        None
    } else {
        match numbers::unsigned_value(t.take(end), 10, usize::MAX as nat) {
            Ok(n) => Some(n),
            Err(_) => None,
        }
    }
}

/// The greatest rule number among the lines, 0 where there is none.
pub open spec fn highest_rule(lines: Seq<Seq<char>>) -> nat
    decreases lines.len(),
{
    if lines.len() == 0 {
        0
    } else {
        let before = highest_rule(lines.drop_last());
        match rule_number(lines.last()) {
            Some(n) => if n > before {
                n
            } else {
                before
            },
            None => before,
        }
    }
}

/// The number of the next rule: one above the greatest, up to the machine's
/// limit.
pub open spec fn next_rule(s: Seq<char>) -> nat {
    let n = highest_rule(chars::lines(s));
    if n >= usize::MAX {
        usize::MAX as nat
    } else {
        n + 1
    }
}

/// A rule line.
pub open spec fn rule_line(n: nat, rule: Seq<char>) -> Seq<char> {
    numbers::decimal(n) + ". "@ + chars::trim(rule) + "\n"@
}

/// A template with one more rule.
pub open spec fn with_rule(s: Seq<char>, rule: Seq<char>) -> Seq<char> {
    chars::trim_end(s) + "\n"@ + rule_line(next_rule(s), rule)
}

/// An overlay with one more rule; the first rule starts the file.
pub open spec fn with_overlay_rule(s: Seq<char>, rule: Seq<char>) -> Seq<char> {
    (if chars::trim(s).len() == 0 {
        seq![]
    } else {
        chars::trim_end(s) + "\n"@
    }) + rule_line(next_rule(s), rule)
}

impl StoreModel {
    pub open spec fn wf(self) -> bool {
        table::ordered(self.prompts) && table::ordered(self.skills) && table::ordered(
            self.proposals,
        )
    }

    /// The template of a class, the default where its file is missing.
    pub open spec fn class_text(self, class: MessageClass) -> Seq<char> {
        value_or(table::lookup(self.prompts, class_file(class)), default_of(class))
    }

    /// The overlay file of a subclass, empty where it is missing.
    pub open spec fn overlay_file(self, class: MessageClass, subclass: Seq<char>) -> Seq<char> {
        value_or(table::lookup(self.prompts, subclass_file(class, subclass)), seq![])
    }

    /// The overlay of a subclass, where it holds anything but white space.
    pub open spec fn overlay(self, class: MessageClass, subclass: Seq<char>) -> Option<Seq<char>> {
        match table::lookup(self.prompts, subclass_file(class, subclass)) {
            Some(s) => if chars::trim(s).len() == 0 {
                None
            } else {
                Some(s)
            },
            None => None,
        }
    }

    /// The adjustment template, the default where its file is missing.
    pub open spec fn adjust_meta(self) -> Seq<char> {
        value_or(table::lookup(self.prompts, "adjust-meta.md"@), ADJUST_META_DEFAULT@)
    }

    /// The rendered template of a class.
    pub open spec fn rendered(self, class: MessageClass, vars: Seq<Row>) -> Seq<char> {
        substituted(self.class_text(class), vars)
    }

    /// The rendered template of a class, and behind it the rules of a subclass,
    /// where it has any.
    pub open spec fn rendered_with(
        self,
        class: MessageClass,
        subclass: Option<Seq<char>>,
        vars: Seq<Row>,
    ) -> Seq<char> {
        let main = self.rendered(class, vars);
        match subclass {
            Some(sub) => match self.overlay(class, sub) {
                Some(o) => main + "\n\nSubclass rules ("@ + sub + "):\n"@ + chars::trim_end(
                    substituted(o, vars),
                ) + "\n"@,
                None => main,
            },
            None => main,
        }
    }

    /// The workspace with a rule appended to a class's template.
    pub open spec fn rule_appended(self, class: MessageClass, rule: Seq<char>) -> StoreModel {
        StoreModel {
            prompts: table::put(
                self.prompts,
                class_file(class),
                with_rule(self.class_text(class), rule),
            ),
            ..self
        }
    }

    /// The workspace with a rule appended to a subclass's overlay.
    pub open spec fn overlay_rule_appended(
        self,
        class: MessageClass,
        subclass: Seq<char>,
        rule: Seq<char>,
    ) -> StoreModel {
        StoreModel {
            prompts: table::put(
                self.prompts,
                subclass_file(class, subclass),
                with_overlay_rule(self.overlay_file(class, subclass), rule),
            ),
            ..self
        }
    }

    /// The workspace with an overlay file replaced; empty contents take the
    /// file away.
    pub open spec fn overlay_restored(
        self,
        class: MessageClass,
        subclass: Seq<char>,
        content: Seq<char>,
    ) -> StoreModel {
        let name = subclass_file(class, subclass);
        StoreModel {
            prompts: if content.len() == 0 {
                table::without(self.prompts, name)
            } else {
                table::put(self.prompts, name, content)
            },
            ..self
        }
    }
}

fn default_for(class: MessageClass) -> (r: &'static str)
    ensures
        r@ == default_of(class),
{
    match class {
        MessageClass::MiniHow => MINIHOW_DEFAULT,
        MessageClass::MiniWhy => MINIWHY_DEFAULT,
        MessageClass::MiniWhat => MINIWHAT_DEFAULT,
    }
}

fn class_path(class: MessageClass) -> (r: String)
    ensures
        r@ == class_file(class),
{
    class.label().to_owned().concat(".md")
}

fn subclass_path(class: MessageClass, subclass: &str) -> (r: String)
    ensures
        r@ == subclass_file(class, subclass@),
{
    let mut name = class.label().to_owned();
    name.append(".");
    name.append(subclass);
    name.append(".md");
    name
}

fn install_file(files: &mut Table, name: &str, default: &str)
    ensures
        final(files)@ == put_if_absent(old(files)@, name@, default@),
        old(files).wf() ==> final(files).wf(),
{
    if !files.has(name) {
        files.insert(name, default);
    }
}

/// The template with the variables replaced, one after the other.
pub fn substitute(template: &str, vars: &[(&str, &str)]) -> (r: String)
    ensures
        r@ == substituted(template@, bindings(vars@)),
{
    let mut out = template.to_owned();
    let ghost all = bindings(vars@);
    let mut i: usize = 0;
    assert(all.take(0) =~= Seq::empty());
    while i < vars.len()
        invariant
            i <= vars.len(),
            all == bindings(vars@),
            out@ == substituted(template@, all.take(i as int)),
        decreases vars.len() - i,
    {
        let (key, value) = vars[i];
        let mut needle = "{{".to_owned();
        needle.append(key);
        needle.append("}}");
        proof {
            reveal_strlit("{{");
            assert(needle@.len() > 0);
            assert(all.take(i + 1).drop_last() =~= all.take(i as int));
            assert(all.take(i + 1).last() == (key@, value@));
        }
        out = text::replace(out.as_str(), needle.as_str(), value);
        i += 1;
    }
    assert(all.take(i as int) =~= all);
    out
}

fn number_of_rule(line: &str) -> (r: Option<usize>)
    ensures
        match r {
            Some(n) => rule_number(line@) == Some(n as nat),
            None => rule_number(line@) is None,
        },
{
    let t = text::trim_start(line);
    let v = text::chars_of(t);
    let end: usize = text::until(&v, 0, CharSet::NotDigit);
    let n: usize = v.len();
    assert(t@.skip(0) =~= t@);
    if end == 0 || end >= n {
        return None;
    }
    let tail = t.substring_char(end, n);
    assert(tail@ =~= t@.skip(end as int));
    if !text::starts_with(tail, ". ") {
        return None;
    }
    let digits = t.substring_char(0, end);
    assert(digits@ =~= t@.take(end as int));
    numbers::parse_usize(digits)
}

/// The number of the next rule of a numbered list.
pub fn next_rule_number(s: &str) -> (r: usize)
    ensures
        r == next_rule(s@),
{
    let lines = text::lines(s);
    let ghost all = chars::texts(lines@);
    let mut max_seen: usize = 0;
    let mut i: usize = 0;
    assert(all.take(0) =~= Seq::empty());
    while i < lines.len()
        invariant
            i <= lines.len(),
            all == chars::texts(lines@),
            max_seen == highest_rule(all.take(i as int)),
        decreases lines.len() - i,
    {
        assert(all.take(i + 1).drop_last() =~= all.take(i as int));
        match number_of_rule(lines[i]) {
            Some(n) => {
                if n > max_seen {
                    max_seen = n;
                }
            },
            None => {},
        }
        i += 1;
    }
    assert(all.take(i as int) =~= all);
    if max_seen == usize::MAX {
        max_seen
    } else {
        max_seen + 1
    }
}

fn push_rule(out: &mut String, n: usize, rule: &str)
    ensures
        final(out)@ == old(out)@ + rule_line(n as nat, rule@),
{
    let ghost before = out@;
    out.append(numbers::usize_text(n).as_str());
    out.append(". ");
    out.append(text::trim(rule));
    out.append("\n");
    assert(out@ =~= before + rule_line(n as nat, rule@));
}

impl PromptStore {
    pub open spec fn wf(&self) -> bool {
        self@.wf()
    }

    /// Takes up a workspace and installs the default templates that it lacks.
    pub fn install(workspace: String, prompts: Table, skills: Table, proposals: Table) -> (r: Self)
        ensures
            r@ == (StoreModel {
                workspace: workspace@,
                prompts: installed(prompts@),
                skills: skills@,
                proposals: proposals@,
            }),
            prompts.wf() && skills.wf() && proposals.wf() ==> r.wf(),
    {
        let mut files = prompts;
        install_file(&mut files, "minihow.md", MINIHOW_DEFAULT);
        install_file(&mut files, "miniwhy.md", MINIWHY_DEFAULT);
        install_file(&mut files, "miniwhat.md", MINIWHAT_DEFAULT);
        install_file(&mut files, "adjust-meta.md", ADJUST_META_DEFAULT);
        PromptStore { workspace, prompts: files, skills, proposals }
    }

    pub fn workspace(&self) -> (r: &str)
        ensures
            r@ == self@.workspace,
    {
        self.workspace.as_str()
    }

    pub fn read_class(&self, class: MessageClass) -> (r: String)
        ensures
            r@ == self@.class_text(class),
    {
        match self.prompts.get(class_path(class).as_str()) {
            Some(s) => s.to_owned(),
            None => default_for(class).to_owned(),
        }
    }

    /// The overlay of a subclass; none where it is missing or blank.
    pub fn read_subclass(&self, class: MessageClass, subclass: &str) -> (r: Option<String>)
        ensures
            chars::opt_text(r) == self@.overlay(class, subclass@),
    {
        match self.prompts.get(subclass_path(class, subclass).as_str()) {
            Some(s) => if text::trim(s).unicode_len() == 0 {
                None
            } else {
                Some(s.to_owned())
            },
            None => None,
        }
    }

    pub fn render(&self, class: MessageClass, vars: &[(&str, &str)]) -> (r: String)
        ensures
            r@ == self@.rendered(class, bindings(vars@)),
    {
        substitute(self.read_class(class).as_str(), vars)
    }

    /// The class's template and behind it the overlay of the subclass, where it
    /// has one. Both have their variables replaced.
    pub fn render_with_subclass(
        &self,
        class: MessageClass,
        subclass: Option<&str>,
        vars: &[(&str, &str)],
    ) -> (r: String)
        ensures
            r@ == self@.rendered_with(
                class,
                match subclass {
                    Some(s) => Some(s@),
                    None => None,
                },
                bindings(vars@),
            ),
    {
        let mut out = self.render(class, vars);
        match subclass {
            Some(sub) => match self.read_subclass(class, sub) {
                Some(overlay) => {
                    let body = substitute(overlay.as_str(), vars);
                    out.append("\n\nSubclass rules (");
                    out.append(sub);
                    out.append("):\n");
                    out.append(text::trim_end(body.as_str()));
                    out.append("\n");
                },
                None => {},
            },
            None => {},
        }
        out
    }

    pub fn read_adjust_meta(&self) -> (r: String)
        ensures
            r@ == self@.adjust_meta(),
    {
        match self.prompts.get("adjust-meta.md") {
            Some(s) => s.to_owned(),
            None => ADJUST_META_DEFAULT.to_owned(),
        }
    }

    pub fn render_adjust_meta(&self, vars: &[(&str, &str)]) -> (r: String)
        ensures
            r@ == substituted(self@.adjust_meta(), bindings(vars@)),
    {
        substitute(self.read_adjust_meta().as_str(), vars)
    }

    /// Appends a numbered rule to a class's template and returns its number.
    pub fn append_rule(&mut self, class: MessageClass, rule: &str) -> (r: usize)
        ensures
            final(self)@ == old(self)@.rule_appended(class, rule@),
            r == next_rule(old(self)@.class_text(class)),
            old(self).wf() ==> final(self).wf(),
    {
        let body = self.read_class(class);
        let next: usize = next_rule_number(body.as_str());
        let mut updated = text::trim_end(body.as_str()).to_owned();
        updated.append("\n");
        push_rule(&mut updated, next, rule);
        self.prompts.insert(class_path(class).as_str(), updated.as_str());
        next
    }

    /// Appends a numbered rule to a subclass's overlay and returns its number.
    /// Each overlay counts its own rules from 1.
    pub fn append_rule_to_subclass(
        &mut self,
        class: MessageClass,
        subclass: &str,
        rule: &str,
    ) -> (r: usize)
        ensures
            final(self)@ == old(self)@.overlay_rule_appended(class, subclass@, rule@),
            r == next_rule(old(self)@.overlay_file(class, subclass@)),
            old(self).wf() ==> final(self).wf(),
    {
        let body = self.snapshot_subclass(class, subclass);
        let next: usize = next_rule_number(body.as_str());
        let mut updated = String::new();
        if text::trim(body.as_str()).unicode_len() > 0 {
            updated = text::trim_end(body.as_str()).to_owned();
            updated.append("\n");
        }
        push_rule(&mut updated, next, rule);
        self.prompts.insert(subclass_path(class, subclass).as_str(), updated.as_str());
        next
    }

    /// The overlay file as it is, empty where it is missing.
    pub fn snapshot_subclass(&self, class: MessageClass, subclass: &str) -> (r: String)
        ensures
            r@ == self@.overlay_file(class, subclass@),
    {
        match self.prompts.get(subclass_path(class, subclass).as_str()) {
            Some(s) => s.to_owned(),
            None => String::new(),
        }
    }

    /// Puts an overlay file back; empty contents take the file away.
    pub fn restore_subclass(&mut self, class: MessageClass, subclass: &str, content: &str)
        ensures
            final(self)@ == old(self)@.overlay_restored(class, subclass@, content@),
            old(self).wf() ==> final(self).wf(),
    {
        let name = subclass_path(class, subclass);
        if content.unicode_len() == 0 {
            self.prompts.remove(name.as_str());
        } else {
            self.prompts.insert(name.as_str(), content);
        }
    }
}

// ---------------------------------------------------------------------------
// Laws
// ---------------------------------------------------------------------------

proof fn lemma_put_if_absent(rows: Seq<Row>, key: Seq<char>, value: Seq<char>, other: Seq<char>)
    requires
        table::ordered(rows),
    ensures
        table::ordered(put_if_absent(rows, key, value)),
        table::lookup(put_if_absent(rows, key, value), other) == (if other == key
            && table::lookup(rows, key) is None {
            Some(value)
        } else {
            table::lookup(rows, other)
        }),
{
    if table::lookup(rows, key) is None {
        table::lemma_put_ordered(rows, key, value);
        table::law_put_then_lookup(rows, key, value, other);
    }
}

proof fn lemma_default_names()
    ensures
        "minihow.md"@ == class_file(MessageClass::MiniHow),
        "miniwhy.md"@ == class_file(MessageClass::MiniWhy),
        "miniwhat.md"@ == class_file(MessageClass::MiniWhat),
        "minihow.md"@ != "miniwhy.md"@,
        "minihow.md"@ != "miniwhat.md"@,
        "miniwhy.md"@ != "miniwhat.md"@,
        "adjust-meta.md"@ != "minihow.md"@,
        "adjust-meta.md"@ != "miniwhy.md"@,
        "adjust-meta.md"@ != "miniwhat.md"@,
{
    reveal_strlit("minihow.md");
    reveal_strlit("miniwhy.md");
    reveal_strlit("miniwhat.md");
    reveal_strlit("adjust-meta.md");
    reveal_strlit("minihow");
    reveal_strlit("miniwhy");
    reveal_strlit("miniwhat");
    reveal_strlit(".md");
    assert("minihow.md"@ =~= "minihow"@ + ".md"@);
    assert("miniwhy.md"@ =~= "miniwhy"@ + ".md"@);
    assert("miniwhat.md"@ =~= "miniwhat"@ + ".md"@);
    assert("minihow.md"@[4] == 'h' && "miniwhy.md"@[5] == 'h' && "minihow.md"@[5] == 'o');
    assert("miniwhat.md"@.len() == 11 && "minihow.md"@.len() == 10 && "miniwhy.md"@.len() == 10);
    assert("adjust-meta.md"@.len() == 14);
}

/// Installing keeps every file that was there, and supplies the default of each
/// template that was not.
pub proof fn law_install_keeps_edits(rows: Seq<Row>, name: Seq<char>, class: MessageClass)
    requires
        table::ordered(rows),
    ensures
        table::ordered(installed(rows)),
        table::lookup(rows, name) is Some ==> table::lookup(installed(rows), name)
            == table::lookup(rows, name),
        table::lookup(installed(rows), class_file(class)) == Some(
            value_or(table::lookup(rows, class_file(class)), default_of(class)),
        ),
        table::lookup(installed(rows), "adjust-meta.md"@) == Some(
            value_or(table::lookup(rows, "adjust-meta.md"@), ADJUST_META_DEFAULT@),
        ),
{
    lemma_default_names();
    lemma_install_lookup(rows, name);
    lemma_install_lookup(rows, class_file(class));
    lemma_install_lookup(rows, "adjust-meta.md"@);
}

proof fn lemma_install_lookup(rows: Seq<Row>, name: Seq<char>)
    requires
        table::ordered(rows),
    ensures
        table::ordered(installed(rows)),
        table::lookup(installed(rows), name) == (match table::lookup(rows, name) {
            Some(v) => Some(v),
            None => if name == "minihow.md"@ {
                Some(MINIHOW_DEFAULT@)
            } else if name == "miniwhy.md"@ {
                Some(MINIWHY_DEFAULT@)
            } else if name == "miniwhat.md"@ {
                Some(MINIWHAT_DEFAULT@)
            } else if name == "adjust-meta.md"@ {
                Some(ADJUST_META_DEFAULT@)
            } else {
                None
            },
        }),
{
    lemma_default_names();
    let a = put_if_absent(rows, "minihow.md"@, MINIHOW_DEFAULT@);
    let b = put_if_absent(a, "miniwhy.md"@, MINIWHY_DEFAULT@);
    let c = put_if_absent(b, "miniwhat.md"@, MINIWHAT_DEFAULT@);
    lemma_put_if_absent(rows, "minihow.md"@, MINIHOW_DEFAULT@, name);
    lemma_put_if_absent(a, "miniwhy.md"@, MINIWHY_DEFAULT@, name);
    lemma_put_if_absent(b, "miniwhat.md"@, MINIWHAT_DEFAULT@, name);
    lemma_put_if_absent(c, "adjust-meta.md"@, ADJUST_META_DEFAULT@, name);
}

/// Installing twice is installing once.
pub proof fn law_install_is_idempotent(rows: Seq<Row>)
    requires
        table::ordered(rows),
    ensures
        installed(installed(rows)) == installed(rows),
{
    law_install_keeps_edits(rows, ""@, MessageClass::MiniHow);
    law_install_keeps_edits(rows, ""@, MessageClass::MiniWhy);
    law_install_keeps_edits(rows, ""@, MessageClass::MiniWhat);
    lemma_default_names();
}

/// A class reads back with the rule that was appended to it, and no other
/// file of the workspace changes.
pub proof fn law_appended_rule_is_read(
    store: StoreModel,
    class: MessageClass,
    rule: Seq<char>,
    other: Seq<char>,
)
    requires
        store.wf(),
    ensures
        store.rule_appended(class, rule).wf(),
        store.rule_appended(class, rule).class_text(class) == with_rule(
            store.class_text(class),
            rule,
        ),
        other != class_file(class) ==> table::lookup(
            store.rule_appended(class, rule).prompts,
            other,
        ) == table::lookup(store.prompts, other),
        store.rule_appended(class, rule).skills == store.skills,
        store.rule_appended(class, rule).proposals == store.proposals,
{
    let body = with_rule(store.class_text(class), rule);
    table::lemma_put_ordered(store.prompts, class_file(class), body);
    table::law_put_then_lookup(store.prompts, class_file(class), body, class_file(class));
    table::law_put_then_lookup(store.prompts, class_file(class), body, other);
}

/// Restoring the snapshot of an overlay undoes a rule that was appended after
/// it. An overlay file that was there but empty is taken away instead.
pub proof fn law_restore_undoes_append(
    store: StoreModel,
    class: MessageClass,
    subclass: Seq<char>,
    rule: Seq<char>,
)
    requires
        store.wf(),
        table::lookup(store.prompts, subclass_file(class, subclass)) != Some(Seq::<char>::empty()),
    ensures
        store.overlay_rule_appended(class, subclass, rule).overlay_restored(
            class,
            subclass,
            store.overlay_file(class, subclass),
        ) == store,
{
    let name = subclass_file(class, subclass);
    let before = store.overlay_file(class, subclass);
    table::lemma_put_again(store.prompts, name, with_overlay_rule(before, rule), before);
    match table::lookup(store.prompts, name) {
        Some(s) => {
            if s.len() == 0 {
                assert(s =~= Seq::<char>::empty());
            }
        },
        None => {},
    }
}

/// The greatest rule number of a first line and others.
proof fn lemma_highest_first(x: Seq<char>, ls: Seq<Seq<char>>)
    ensures
        highest_rule(seq![x] + ls) == (match rule_number(x) {
            Some(n) => if n > highest_rule(ls) {
                n
            } else {
                highest_rule(ls)
            },
            None => highest_rule(ls),
        }),
    decreases ls.len(),
{
    let all = seq![x] + ls;
    if ls.len() == 0 {
        assert(all.drop_last() =~= seq![]);
        assert(highest_rule(all.drop_last()) == 0);
    } else {
        assert(all.last() == ls.last());
        assert(all.drop_last() =~= seq![x] + ls.drop_last());
        lemma_highest_first(x, ls.drop_last());
    }
}

/// A rule line stays one with the same number where what follows its first word
/// is longer or shorter.
proof fn lemma_rule_prefix(a: Seq<char>, b: Seq<char>)
    requires
        rule_number(a) is Some,
        a.len() <= b.len(),
        b.take(a.len() as int) == a,
    ensures
        rule_number(b) == rule_number(a),
{
    let set = CharSet::White;
    let ta = chars::trim_start(a);
    let tb = chars::trim_start(b);
    chars::lemma_drop_leading(a, set);
    let k = a.len() - ta.len();
    assert forall|j: int| 0 <= j < a.len() implies #[trigger] a[j] == b[j] by {
        assert(b.take(a.len() as int)[j] == b[j]);
    }
    assert(ta[0] == a[k]);
    assert(b[k] == a[k]);
    assert forall|j: int| 0 <= j < k implies set.has(#[trigger] b[j]) by {
        assert(a[j] == b[j]);
    }
    chars::lemma_drop_leading_is(b, set, k);
    assert(tb == b.skip(k));
    let end = chars::until(ta, CharSet::NotDigit) as int;
    chars::lemma_until(ta, CharSet::NotDigit);
    assert forall|j: int| 0 <= j < ta.len() implies #[trigger] ta[j] == tb[j] by {
        assert(ta[j] == a[k + j]);
    }
    assert forall|j: int| 0 <= j < end implies !CharSet::NotDigit.has(#[trigger] tb[j]) by {
        assert(ta[j] == tb[j]);
    }
    assert(ta[end] == tb[end]);
    chars::lemma_until_is(tb, CharSet::NotDigit, end);
    reveal_strlit(". ");
    assert(ta.skip(end).take(2) == ". "@);
    assert(tb.skip(end).take(2) =~= ta.skip(end).take(2));
    assert(tb.take(end) =~= ta.take(end));
}

proof fn lemma_rule_length(a: Seq<char>)
    requires
        rule_number(a) is Some,
    ensures
        a.len() >= 3,
        a.last() == '\r' ==> rule_number(a.drop_last()) == rule_number(a),
{
    let ta = chars::trim_start(a);
    chars::lemma_drop_leading(a, CharSet::White);
    let end = chars::until(ta, CharSet::NotDigit) as int;
    chars::lemma_until(ta, CharSet::NotDigit);
    reveal_strlit(". ");
    let two = ta.skip(end).take(2);
    assert(two == ". "@);
    assert(two[0] == ta[end] && two[1] == ta[end + 1]);
    if a.last() == '\r' {
        let b = a.drop_last();
        let k = a.len() - ta.len();
        assert(ta.last() == a.last());
        assert(end + 2 < ta.len());
        let tb = b.skip(k);
        assert(b[k] == a[k] && ta[0] == a[k]);
        assert forall|j: int| 0 <= j < k implies CharSet::White.has(#[trigger] b[j]) by {
            assert(b[j] == a[j]);
        }
        chars::lemma_drop_leading_is(b, CharSet::White, k);
        assert forall|j: int| 0 <= j < tb.len() implies #[trigger] tb[j] == ta[j] by {}
        assert forall|j: int| 0 <= j < end implies !CharSet::NotDigit.has(#[trigger] tb[j]) by {
            assert(ta[j] == tb[j]);
        }
        chars::lemma_until_is(tb, CharSet::NotDigit, end);
        assert(tb.skip(end).take(2) =~= two);
        assert(tb.take(end) =~= ta.take(end));
    }
}

/// White space at the end adds no rule and takes none away, or makes one of a
/// bare number.
proof fn lemma_highest_white(p: Seq<char>, w: char)
    ensures
        highest_rule(chars::lines(p)) <= highest_rule(chars::lines(p.push(w))),
    decreases p.len(),
{
    let s = p.push(w);
    let set = CharSet::Only('\n');
    let k = chars::until(p, set) as int;
    chars::lemma_until(p, set);
    let none = Seq::<Seq<char>>::empty();
    if p.len() == 0 {
        assert(chars::lines(p) =~= none);
    } else if k < p.len() {
        assert forall|j: int| 0 <= j < k implies !set.has(#[trigger] s[j]) by {
            assert(s[j] == p[j]);
        }
        assert(s[k] == p[k]);
        chars::lemma_until_is(s, set, k);
        assert(s.take(k) =~= p.take(k));
        assert(s.skip(k + 1) =~= p.skip(k + 1).push(w));
        lemma_highest_white(p.skip(k + 1), w);
        let first = chars::without_cr(p.take(k));
        lemma_highest_first(first, chars::lines(p.skip(k + 1)));
        lemma_highest_first(first, chars::lines(s.skip(k + 1)));
    } else {
        assert forall|j: int| 0 <= j < p.len() implies !set.has(#[trigger] s[j]) by {
            assert(s[j] == p[j]);
        }
        assert(seq![p] + none =~= seq![p]);
        lemma_highest_first(p, none);
        if w == '\n' {
            chars::lemma_until_is(s, set, p.len() as int);
            assert(s.take(p.len() as int) =~= p);
            assert(s.skip(p.len() as int + 1) =~= seq![]);
            assert(chars::lines(s.skip(p.len() as int + 1)) =~= none);
            lemma_highest_first(chars::without_cr(p), none);
            if rule_number(p) is Some {
                lemma_rule_length(p);
            }
        } else {
            assert(!set.has(s[p.len() as int]));
            chars::lemma_until_is(s, set, s.len() as int);
            assert(seq![s] + none =~= seq![s]);
            lemma_highest_first(s, none);
            if rule_number(p) is Some {
                assert(s.take(p.len() as int) =~= p);
                lemma_rule_prefix(p, s);
            }
        }
    }
}

proof fn lemma_highest_trimmed(s: Seq<char>)
    ensures
        highest_rule(chars::lines(chars::trim_end(s))) <= highest_rule(chars::lines(s)),
    decreases s.len(),
{
    if s.len() > 0 && CharSet::White.has(s.last()) {
        lemma_highest_trimmed(s.drop_last());
        lemma_highest_white(s.drop_last(), s.last());
        assert(s.drop_last().push(s.last()) =~= s);
    }
}

/// The greatest rule number of a text that goes on on a new line.
proof fn lemma_highest_joined(a: Seq<char>, rest: Seq<char>)
    requires
        a.len() > 0 ==> !chars::is_white(a.last()),
    ensures
        highest_rule(chars::lines(a + seq!['\n'] + rest)) == (if highest_rule(chars::lines(a))
            > highest_rule(chars::lines(rest)) {
            highest_rule(chars::lines(a))
        } else {
            highest_rule(chars::lines(rest))
        }),
    decreases a.len(),
{
    let s = a + seq!['\n'] + rest;
    let set = CharSet::Only('\n');
    let none = Seq::<Seq<char>>::empty();
    let k = chars::until(a, set) as int;
    chars::lemma_until(a, set);
    if k < a.len() {
        assert forall|j: int| 0 <= j < k implies !set.has(#[trigger] s[j]) by {
            assert(s[j] == a[j]);
        }
        assert(s[k] == a[k]);
        chars::lemma_until_is(s, set, k);
        let more = a.skip(k + 1);
        assert(s.take(k) =~= a.take(k));
        assert(s.skip(k + 1) =~= more + seq!['\n'] + rest);
        if more.len() > 0 {
            assert(more.last() == a.last());
        }
        lemma_highest_joined(more, rest);
        let first = chars::without_cr(a.take(k));
        lemma_highest_first(first, chars::lines(more));
        lemma_highest_first(first, chars::lines(s.skip(k + 1)));
    } else {
        assert forall|j: int| 0 <= j < a.len() implies #[trigger] a[j] != '\n' by {
            assert(!set.has(a[j]));
        }
        chars::lemma_first_line(a, rest);
        lemma_highest_first(a, chars::lines(rest));
        if a.len() == 0 {
            assert(chars::lines(a) =~= none);
            assert(rule_number(a) is None);
        } else {
            assert(chars::lines(a) =~= seq![a] + none);
            lemma_highest_first(a, none);
        }
    }
}

/// The line of a rule has the rule's number.
proof fn lemma_rule_line(n: nat, rule: Seq<char>)
    requires
        n <= usize::MAX,
        forall|i: int| 0 <= i < chars::trim(rule).len() ==> #[trigger] chars::trim(rule)[i] != '\n',
    ensures
        highest_rule(chars::lines(rule_line(n, rule))) == n,
{
    let d = numbers::decimal(n);
    let t = chars::trim(rule);
    reveal_strlit(". ");
    reveal_strlit("\n");
    numbers::lemma_decimal_digits(n);
    numbers::law_decimal_round_trip(n, usize::MAX as nat);
    let line = d + ". "@ + t;
    let none = Seq::<char>::empty();
    let k = d.len() as int;
    assert(rule_line(n, rule) =~= line + seq!['\n'] + none);
    assert forall|i: int| 0 <= i < line.len() implies #[trigger] line[i] != '\n' by {
        if i < k {
            assert(line[i] == d[i]);
        } else if i >= k + 2 {
            assert(line[i] == t[i - k - 2]);
        }
    }
    chars::lemma_drop_trailing(chars::trim_start(rule), CharSet::White);
    assert(t.len() > 0 ==> line.last() == t.last());
    assert(line.last() != '\r');
    chars::lemma_first_line(line, none);
    assert(line[0] == d[0]);
    assert(chars::trim_start(line) == line);
    assert forall|j: int| 0 <= j < k implies !CharSet::NotDigit.has(#[trigger] line[j]) by {
        assert(line[j] == d[j]);
    }
    assert(line[k] == '.');
    chars::lemma_until_is(line, CharSet::NotDigit, k);
    assert(line.skip(k).take(2) =~= ". "@);
    assert(line.take(k) =~= d);
    assert(rule_number(line) == Some(n));
    let no_lines = Seq::<Seq<char>>::empty();
    assert(chars::lines(none) =~= no_lines);
    lemma_highest_first(line, no_lines);
}

/// Rules are numbered one after the other: the rule behind an appended one has
/// the next number, in a template as in an overlay.
pub proof fn law_rules_count_up(s: Seq<char>, rule: Seq<char>)
    requires
        next_rule(s) < usize::MAX,
        forall|i: int| 0 <= i < chars::trim(rule).len() ==> #[trigger] chars::trim(rule)[i] != '\n',
    ensures
        next_rule(with_rule(s, rule)) == next_rule(s) + 1,
        next_rule(with_overlay_rule(s, rule)) == next_rule(s) + 1,
{
    let n = next_rule(s);
    let a = chars::trim_end(s);
    let line = rule_line(n, rule);
    reveal_strlit("\n");
    lemma_rule_line(n, rule);
    lemma_highest_trimmed(s);
    chars::lemma_drop_trailing(s, CharSet::White);
    lemma_highest_joined(a, line);
    assert(with_rule(s, rule) =~= a + seq!['\n'] + line);
    if chars::trim(s).len() == 0 {
        assert(with_overlay_rule(s, rule) =~= line);
    } else {
        assert(with_overlay_rule(s, rule) =~= a + seq!['\n'] + line);
    }
}

}
