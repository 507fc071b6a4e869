//! Skills: commands that an operator or the advisor has registered in files
//! with a front matter.
use vstd::prelude::*;

use crate::chars;
use crate::chars::CharSet;
use crate::table::{Row, Table};
use crate::text;

verus! {

#[derive(Debug)]
pub struct Skill {
    pub name: String,
    pub description: String,
    pub command: Option<String>,
}

/// The contents of a skill.
pub ghost struct SkillModel {
    pub name: Seq<char>,
    pub description: Seq<char>,
    pub command: Option<Seq<char>>,
}

impl View for Skill {
    type V = SkillModel;

    open spec fn view(&self) -> SkillModel {
        SkillModel {
            name: self.name@,
            description: self.description@,
            command: chars::opt_text(self.command),
        }
    }
}

#[derive(Debug)]
pub struct SkillRegistry {
    pub skills: Vec<Skill>,
}

/// The contents of a list of skills.
pub open spec fn skill_models(v: Seq<Skill>) -> Seq<SkillModel> {
    v.map_values(|s: Skill| s@)
}

impl View for SkillRegistry {
    type V = Seq<SkillModel>;

    open spec fn view(&self) -> Seq<SkillModel> {
        skill_models(self.skills@)
    }
}

// ---------------------------------------------------------------------------
// Files
// ---------------------------------------------------------------------------

/// The value of a field in `key: value` lines; the last line of a key counts.
pub open spec fn field_of(lines: Seq<Seq<char>>, key: Seq<char>) -> Option<Seq<char>>
    decreases lines.len(),
{
    if lines.len() == 0 {
        None
    } else {
        match chars::around(lines.last(), ":"@) {
            Some((k, v)) => if chars::trim(k) == key {
                Some(chars::trim(v))
            } else {
                field_of(lines.drop_last(), key)
            },
            None => field_of(lines.drop_last(), key),
        }
    }
}

/// The front matter of a skill file: what stands between `---` at its start and
/// the next line that starts with `---`.
pub open spec fn front_of(content: Seq<char>) -> Option<Seq<char>> {
    match chars::after_prefix(chars::trim_start(content), "---"@) {
        Some(after) => match chars::find(after, "\n---"@) {
            Some(end) => Some(after.take(end as int)),
            None => None,
        },
        None => None,
    }
}

/// The skill that a file describes: name and description are required.
pub open spec fn skill_in(content: Seq<char>) -> Option<SkillModel> {
    match front_of(content) {
        Some(front) => {
            let lines = chars::lines(front);
            match (field_of(lines, "name"@), field_of(lines, "description"@)) {
                (Some(name), Some(description)) => if name.len() == 0 || description.len() == 0 {
                    None
                } else {
                    Some(SkillModel { name, description, command: field_of(lines, "exec"@) })
                },
                _ => None,
            }
        },
        None => None,
    }
}

/// Whether a file name has the extension `md`.
pub open spec fn is_markdown(name: Seq<char>) -> bool {
    name.len() > 3 && name.skip(name.len() - 3) == ".md"@
}

/// The skills of a directory in the order of the file names. Files without the
/// extension and files that describe no skill are skipped.
pub open spec fn skills_in(rows: Seq<Row>) -> Seq<SkillModel>
    decreases rows.len(),
{
    if rows.len() == 0 {
        seq![]
    } else {
        let before = skills_in(rows.drop_last());
        match skill_in(rows.last().1) {
            Some(skill) => if is_markdown(rows.last().0) {
                before.push(skill)
            } else {
                before
            },
            None => before,
        }
    }
}

pub fn markdown(name: &str) -> (r: bool)
    ensures
        r == is_markdown(name@),
{
    let n: usize = name.unicode_len();
    if n <= 3 {
        return false;
    }
    let tail = name.substring_char(n - 3, n);
    assert(tail@ =~= name@.skip(n - 3));
    text::same(tail, ".md")
}

/// The value of a field in `key: value` lines.
pub fn read_field<'a>(lines: &Vec<&'a str>, key: &str) -> (r: Option<&'a str>)
    ensures
        match r {
            Some(v) => field_of(chars::texts(lines@), key@) == Some(v@),
            None => field_of(chars::texts(lines@), key@) is None,
        },
{
    let ghost all = chars::texts(lines@);
    let mut found: Option<&'a str> = None;
    let mut i: usize = 0;
    assert(all.take(0) =~= Seq::empty());
    while i < lines.len()
        invariant
            i <= lines.len(),
            all == chars::texts(lines@),
            match found {
                Some(v) => field_of(all.take(i as int), key@) == Some(v@),
                None => field_of(all.take(i as int), key@) is None,
            },
        decreases lines.len() - i,
    {
        assert(all.take(i + 1).drop_last() =~= all.take(i as int));
        match text::around(lines[i], ":") {
            Some((k, v)) => {
                if text::same(text::trim(k), key) {
                    found = Some(text::trim(v));
                }
            },
            None => {},
        }
        i += 1;
    }
    assert(all.take(i as int) =~= all);
    found
}

/// The skill that a file describes.
pub fn parse_skill_file(content: &str) -> (r: Option<Skill>)
    ensures
        match r {
            Some(s) => skill_in(content@) == Some(s@),
            None => skill_in(content@) is None,
        },
{
    let after = match text::after_prefix(text::trim_start(content), "---") {
        Some(after) => after,
        None => {
            return None;
        },
    };
    let end: usize = match text::find(after, "\n---") {
        Some(end) => end,
        None => {
            return None;
        },
    };
    let front = after.substring_char(0, end);
    assert(front@ =~= after@.take(end as int));
    let lines = text::lines(front);
    match (read_field(&lines, "name"), read_field(&lines, "description")) {
        (Some(name), Some(description)) => {
            if name.unicode_len() == 0 || description.unicode_len() == 0 {
                return None;
            }
            let command = match read_field(&lines, "exec") {
                Some(e) => Some(e.to_owned()),
                None => None,
            };
            Some(Skill { name: name.to_owned(), description: description.to_owned(), command })
        },
        _ => None,
    }
}

// ---------------------------------------------------------------------------
// Matching
// ---------------------------------------------------------------------------

/// Words that tell nothing about a skill.
pub open spec fn is_generic(w: Seq<char>) -> bool {
    ||| w == "the"@ || w == "and"@ || w == "for"@ || w == "get"@ || w == "use"@ || w == "run"@
    ||| w == "show"@ || w == "give"@ || w == "tell"@ || w == "what"@ || w == "how"@ || w == "who"@
    ||| w == "why"@ || w == "when"@ || w == "where"@ || w == "its"@ || w == "that"@ || w == "this"@
    ||| w == "with"@ || w == "from"@ || w == "into"@ || w == "about"@ || w == "are"@ || w == "was"@
    ||| w == "were"@ || w == "have"@ || w == "has"@ || w == "had"@ || w == "been"@ || w == "can"@
    ||| w == "will"@ || w == "would"@ || w == "should"@ || w == "may"@ || w == "might"@
    ||| w == "make"@ || w == "does"@ || w == "just"@ || w == "now"@ || w == "not"@
}

/// The words of three characters or more that are not generic.
pub open spec fn is_telling() -> spec_fn(Seq<char>) -> bool {
    |w: Seq<char>| w.len() >= 3 && !is_generic(w)
}

/// The telling words of a text, in lower case.
pub open spec fn telling_words(s: Seq<char>) -> Seq<Seq<char>> {
    chars::pieces(chars::lower(s), CharSet::NotAlphanumeric).filter(is_telling())
}

/// The text by which a skill is matched: its name with spaces for hyphens, and
/// its description.
pub open spec fn matched_text(skill: SkillModel) -> Seq<char> {
    chars::replace_char(skill.name, '-', " "@) + " "@ + skill.description
}

/// Whether two lists of words have one in common.
pub open spec fn overlap(a: Seq<Seq<char>>, b: Seq<Seq<char>>) -> bool {
    exists|w: Seq<char>| #[trigger] a.contains(w) && b.contains(w)
}

/// An executable skill that shares a telling word with the input.
pub open spec fn serves(skill: SkillModel, input: Seq<char>) -> bool {
    skill.command is Some && overlap(telling_words(input), telling_words(matched_text(skill)))
}

/// The first skill that serves the input.
pub open spec fn first_serving(skills: Seq<SkillModel>, input: Seq<char>) -> Option<SkillModel>
    decreases skills.len(),
{
    if skills.len() == 0 {
        None
    } else if serves(skills[0], input) {
        Some(skills[0])
    } else {
        first_serving(skills.skip(1), input)
    }
}

/// The first skill of a name, up to case and surrounding white space.
pub open spec fn skill_named(skills: Seq<SkillModel>, name: Seq<char>) -> Option<SkillModel>
    decreases skills.len(),
{
    if skills.len() == 0 {
        None
    } else if chars::lower(skills[0].name) == chars::lower(chars::trim(name)) {
        Some(skills[0])
    } else {
        skill_named(skills.skip(1), name)
    }
}

/// One line of the index.
pub open spec fn index_line(skill: SkillModel) -> Seq<char> {
    "- "@ + skill.name + ": "@ + skill.description + "\n"@
}

/// The index of skills that a model is shown, empty where there are none.
pub open spec fn skill_index(skills: Seq<SkillModel>) -> Seq<char> {
    if skills.len() == 0 {
        seq![]
    } else {
        "Available skills:\n"@ + chars::concat(skills.map_values(|s: SkillModel| index_line(s)))
    }
}

/// The program names of the skills' commands.
pub open spec fn programs(skills: Seq<SkillModel>) -> Seq<Seq<char>>
    decreases skills.len(),
{
    if skills.len() == 0 {
        seq![]
    } else {
        let before = programs(skills.drop_last());
        match skills.last().command {
            Some(e) => if chars::words(e).len() > 0 {
                before.push(chars::words(e)[0])
            } else {
                before
            },
            None => before,
        }
    }
}

pub fn is_generic_word(w: &str) -> (r: bool)
    ensures
        r == is_generic(w@),
{
    text::same(w, "the") || text::same(w, "and") || text::same(w, "for") || text::same(w, "get")
        || text::same(w, "use") || text::same(w, "run") || text::same(w, "show") || text::same(
        w,
        "give",
    ) || text::same(w, "tell") || text::same(w, "what") || text::same(w, "how") || text::same(
        w,
        "who",
    ) || text::same(w, "why") || text::same(w, "when") || text::same(w, "where") || text::same(
        w,
        "its",
    ) || text::same(w, "that") || text::same(w, "this") || text::same(w, "with") || text::same(
        w,
        "from",
    ) || text::same(w, "into") || text::same(w, "about") || text::same(w, "are") || text::same(
        w,
        "was",
    ) || text::same(w, "were") || text::same(w, "have") || text::same(w, "has") || text::same(
        w,
        "had",
    ) || text::same(w, "been") || text::same(w, "can") || text::same(w, "will") || text::same(
        w,
        "would",
    ) || text::same(w, "should") || text::same(w, "may") || text::same(w, "might") || text::same(
        w,
        "make",
    ) || text::same(w, "does") || text::same(w, "just") || text::same(w, "now") || text::same(
        w,
        "not",
    )
}

/// The telling words of a text, in lower case.
pub fn skill_terms(s: &str) -> (r: Vec<String>)
    ensures
        chars::owned_texts(r@) == telling_words(s@),
{
    let lowered = text::lower(s);
    let parts = text::pieces(lowered.as_str(), CharSet::NotAlphanumeric);
    let ghost all = chars::texts(parts@);
    let mut out: Vec<String> = Vec::new();
    let mut i: usize = 0;
    proof {
        reveal(Seq::filter);
        assert(all.take(0) =~= Seq::empty());
        assert(chars::owned_texts(out@) =~= Seq::empty());
    }
    while i < parts.len()
        invariant
            i <= parts.len(),
            all == chars::texts(parts@),
            chars::owned_texts(out@) == all.take(i as int).filter(is_telling()),
        decreases parts.len() - i,
    {
        proof {
            reveal(Seq::filter);
            assert(all.take(i + 1).drop_last() =~= all.take(i as int));
        }
        let part = parts[i];
        if part.unicode_len() >= 3 && !is_generic_word(part) {
            let ghost before = chars::owned_texts(out@);
            out.push(part.to_owned());
            assert(chars::owned_texts(out@) =~= before.push(part@));
        }
        i += 1;
    }
    assert(all.take(i as int) =~= all);
    out
}

pub(crate) fn share_word(a: &Vec<String>, b: &Vec<String>) -> (r: bool)
    ensures
        r == overlap(chars::owned_texts(a@), chars::owned_texts(b@)),
{
    let ghost left = chars::owned_texts(a@);
    let ghost right = chars::owned_texts(b@);
    let mut i: usize = 0;
    while i < a.len()
        invariant
            i <= a.len(),
            left == chars::owned_texts(a@),
            right == chars::owned_texts(b@),
            forall|k: int| 0 <= k < i ==> !right.contains(#[trigger] left[k]),
        decreases a.len() - i,
    {
        if text::any_same(b, a[i].as_str()) {
            assert(left[i as int] == a@[i as int]@);
            assert(left.contains(left[i as int]));
            return true;
        }
        i += 1;
    }
    assert forall|w: Seq<char>| #[trigger] left.contains(w) implies !right.contains(w) by {
        let k = left.index_of(w);
        assert(left[k] == w);
    }
    false
}

impl SkillRegistry {
    /// The skills of a directory.
    pub fn load(files: &Table) -> (r: Self)
        ensures
            r@ == skills_in(files@),
    {
        let mut skills: Vec<Skill> = Vec::new();
        let ghost all = files@;
        let mut i: usize = 0;
        assert(all.take(0) =~= Seq::empty());
        assert(skill_models(skills@) =~= Seq::empty());
        while i < files.len()
            invariant
                i <= all.len(),
                all == files@,
                skill_models(skills@) == skills_in(all.take(i as int)),
            decreases all.len() - i,
        {
            assert(all.take(i + 1).drop_last() =~= all.take(i as int));
            if markdown(files.key(i)) {
                match parse_skill_file(files.value(i)) {
                    Some(skill) => {
                        let ghost before = skill_models(skills@);
                        let ghost m = skill@;
                        skills.push(skill);
                        assert(skill_models(skills@) =~= before.push(m));
                    },
                    None => {},
                }
            }
            i += 1;
        }
        assert(all.take(i as int) =~= all);
        SkillRegistry { skills }
    }

    pub fn is_empty(&self) -> (r: bool)
        ensures
            r == (self@.len() == 0),
    {
        self.skills.is_empty()
    }

    pub fn skills(&self) -> (r: &[Skill])
        ensures
            skill_models(r@) == self@,
    {
        self.skills.as_slice()
    }

    /// Names and descriptions for a model's prompt.
    pub fn index_text(&self) -> (r: String)
        ensures
            r@ == skill_index(self@),
    {
        if self.skills.is_empty() {
            return String::new();
        }
        let mut out = "Available skills:\n".to_owned();
        let ghost head = out@;
        let ghost lines = self@.map_values(|s: SkillModel| index_line(s));
        let mut i: usize = 0;
        assert(lines.take(0) =~= Seq::empty());
        assert(out@ =~= head + chars::concat(lines.take(0)));
        while i < self.skills.len()
            invariant
                i <= self.skills.len(),
                lines == self@.map_values(|s: SkillModel| index_line(s)),
                out@ == head + chars::concat(lines.take(i as int)),
            decreases self.skills.len() - i,
        {
            let ghost before = out@;
            let skill = &self.skills[i];
            out.append("- ");
            out.append(skill.name.as_str());
            out.append(": ");
            out.append(skill.description.as_str());
            out.append("\n");
            assert(out@ =~= before + index_line(skill@));
            assert(lines.take(i + 1).drop_last() =~= lines.take(i as int));
            assert(lines.take(i + 1).last() == index_line(skill@));
            assert(out@ =~= head + chars::concat(lines.take(i + 1)));
            i += 1;
        }
        assert(lines.take(i as int) =~= lines);
        out
    }

    /// The first skill of a name, up to case and surrounding white space.
    pub fn find(&self, name: &str) -> (r: Option<&Skill>)
        ensures
            match r {
                Some(s) => skill_named(self@, name@) == Some(s@),
                None => skill_named(self@, name@) is None,
            },
    {
        let ghost all = self@;
        let wanted = text::trim(name);
        let mut i: usize = 0;
        assert(all.skip(0) =~= all);
        while i < self.skills.len()
            invariant
                i <= self.skills.len(),
                all == self@,
                wanted@ == chars::trim(name@),
                skill_named(all, name@) == skill_named(all.skip(i as int), name@),
            decreases self.skills.len() - i,
        {
            assert(all.skip(i as int).skip(1) =~= all.skip(i + 1));
            assert(all.skip(i as int)[0] == self.skills@[i as int]@);
            if text::same_ignoring_case(self.skills[i].name.as_str(), wanted) {
                return Some(&self.skills[i]);
            }
            i += 1;
        }
        None
    }

    /// The first executable skill whose name and description share a telling
    /// word with the input.
    pub fn match_for_input(&self, input: &str) -> (r: Option<&Skill>)
        ensures
            match r {
                Some(s) => first_serving(self@, input@) == Some(s@),
                None => first_serving(self@, input@) is None,
            },
    {
        let terms = skill_terms(input);
        let ghost all = self@;
        let mut i: usize = 0;
        assert(all.skip(0) =~= all);
        while i < self.skills.len()
            invariant
                i <= self.skills.len(),
                all == self@,
                chars::owned_texts(terms@) == telling_words(input@),
                first_serving(all, input@) == first_serving(all.skip(i as int), input@),
            decreases self.skills.len() - i,
        {
            assert(all.skip(i as int).skip(1) =~= all.skip(i + 1));
            assert(all.skip(i as int)[0] == self.skills@[i as int]@);
            let skill = &self.skills[i];
            if skill.command.is_some() {
                let mut line = text::replace_char(skill.name.as_str(), '-', " ");
                line.append(" ");
                line.append(skill.description.as_str());
                if share_word(&terms, &skill_terms(line.as_str())) {
                    return Some(skill);
                }
            }
            i += 1;
        }
        None
    }

    /// The program names of the skills' commands, which a tool policy may trust.
    pub fn exec_programs(&self) -> (r: Vec<String>)
        ensures
            chars::owned_texts(r@) == programs(self@),
    {
        let mut out: Vec<String> = Vec::new();
        let ghost all = self@;
        let mut i: usize = 0;
        assert(all.take(0) =~= Seq::empty());
        assert(chars::owned_texts(out@) =~= Seq::empty());
        while i < self.skills.len()
            invariant
                i <= self.skills.len(),
                all == self@,
                chars::owned_texts(out@) == programs(all.take(i as int)),
            decreases self.skills.len() - i,
        {
            assert(all.take(i + 1).drop_last() =~= all.take(i as int));
            assert(all[i as int] == self.skills@[i as int]@);
            match &self.skills[i].command {
                Some(e) => {
                    let words = text::words(e.as_str());
                    if words.len() > 0 {
                        let ghost before = chars::owned_texts(out@);
                        assert(chars::texts(words@)[0] == words@[0]@);
                        out.push(words[0].to_owned());
                        assert(chars::owned_texts(out@) =~= before.push(words@[0]@));
                    }
                },
                None => {},
            }
            i += 1;
        }
        assert(all.take(i as int) =~= all);
        out
    }
}

/// A skill is matched only where it can be run.
pub proof fn law_matched_skill_is_executable(skills: Seq<SkillModel>, input: Seq<char>)
    ensures
        first_serving(skills, input) matches Some(s) ==> s.command is Some && skills.contains(s),
    decreases skills.len(),
{
    if skills.len() > 0 {
        if serves(skills[0], input) {
            assert(skills.contains(skills[0]));
        } else {
            law_matched_skill_is_executable(skills.skip(1), input);
            if let Some(s) = first_serving(skills.skip(1), input) {
                let k = skills.skip(1).index_of(s);
                assert(skills[k + 1] == s);
            }
        }
    }
}

}
