//! Skills: reusable instructions that are added to system prompts. A skill is
//! a markdown file, optionally behind a head with its name and description.

use vstd::prelude::*;
use vstd::string::*;

use crate::config::ProjectContext;
use crate::find;
use crate::model;
use crate::named;
use crate::named::Named;
use crate::paths;
use crate::text;

verus! {

/// A skill.
pub struct Skill {
    pub name: String,
    pub description: String,
    pub body: String,
    pub path: String,
}

/// What a skill stands for.
pub struct SkillView {
    pub name: Seq<char>,
    pub description: Seq<char>,
    pub body: Seq<char>,
    pub path: Seq<char>,
}

impl View for Skill {
    type V = SkillView;

    open spec fn view(&self) -> SkillView {
        SkillView {
            name: self.name@,
            description: self.description@,
            body: self.body@,
            path: self.path@,
        }
    }
}

impl Named for Skill {
    open spec fn key(&self) -> Seq<char> {
        self.name@
    }

    fn name(&self) -> (r: &str) {
        self.name.as_str()
    }
}

// ---------------------------------------------------------------------------
// Reading
// ---------------------------------------------------------------------------

/// What a file with a head holds.
pub struct FrontView {
    pub name: Seq<char>,
    pub description: Seq<char>,
    pub body: Seq<char>,
}

/// A name and a description after the lines of a head. The last line of a
/// kind counts; other lines are passed over.
pub open spec fn head_fields(lines: Seq<Seq<char>>, name: Seq<char>) -> (Seq<char>, Seq<char>)
    decreases lines.len(),
{
    if lines.len() == 0 {
        (name, seq![])
    } else {
        let (n, d) = head_fields(lines.drop_last(), name);
        match find::split_once_spec(lines.last(), ':') {
            Some((key, value)) => if text::trim_spec(key) == "name"@ {
                (text::trim_spec(value), d)
            } else if text::trim_spec(key) == "description"@ {
                (n, text::trim_spec(value))
            } else {
                (n, d)
            },
            None => (n, d),
        }
    }
}

/// What a file holds: a head stands between a line of dashes at the file's
/// very start and the next one. A file without a head is all body.
pub open spec fn frontmatter_spec(name: Seq<char>, raw: Seq<char>) -> FrontView {
    let whole = FrontView { name, description: seq![], body: text::trim_spec(raw) };
    match find::strip_prefix_spec(raw, "---"@) {
        Some(rest) => match find::find_spec(rest, "\n---"@, 0) {
            Some(end) => {
                let (n, d) = head_fields(text::lines_spec(rest.take(end)), name);
                FrontView {
                    name: n,
                    description: d,
                    body: text::trim_spec(rest.skip(end + "\n---"@.len())),
                }
            },
            None => whole,
        },
        None => whole,
    }
}

/// Read a file that may have a head: its name, its description, its body.
pub fn parse_frontmatter(name: &str, raw: &str) -> (r: (String, String, String))
    ensures
        ({
            let f = frontmatter_spec(name@, raw@);
            r.0@ == f.name && r.1@ == f.description && r.2@ == f.body
        }),
{
    let nothing = String::new();
    assert(nothing@ =~= seq![]);
    match find::strip_prefix(raw, "---") {
        None => (name.to_owned(), nothing, text::trim(raw)),
        Some(rest) => {
            let v = text::chars(rest.as_str());
            let mark = text::chars("\n---");
            match find::find_in(v.as_slice(), mark.as_slice(), 0) {
                None => (name.to_owned(), nothing, text::trim(raw)),
                Some(end) => {
                    let head = text::text_range(v.as_slice(), 0, end);
                    assert(head@ =~= rest@.take(end as int));
                    let tail = text::text_range(v.as_slice(), end + mark.len(), v.len());
                    assert(tail@ =~= rest@.skip(end + "\n---"@.len()));
                    let lines = text::lines(head.as_str());
                    let ghost all = text::views(lines@);
                    let mut found = name.to_owned();
                    let mut description = nothing;
                    let mut i: usize = 0;
                    while i < lines.len()
                        invariant
                            i <= lines@.len(),
                            all == text::views(lines@),
                            head_fields(all.take(i as int), name@) == (found@, description@),
                        decreases lines@.len() - i,
                    {
                        assert(all.take(i + 1).drop_last() =~= all.take(i as int));
                        match find::split_once(lines[i].as_str(), ':') {
                            Some((key, value)) => {
                                let k = text::trim(key.as_str());
                                if text::same(k.as_str(), "name") {
                                    found = text::trim(value.as_str());
                                } else if text::same(k.as_str(), "description") {
                                    description = text::trim(value.as_str());
                                }
                            },
                            None => {},
                        }
                        i = i + 1;
                    }
                    assert(all.take(all.len() as int) =~= all);
                    (found, description, text::trim(tail.as_str()))
                },
            }
        },
    }
}

/// A skill as a file holds it.
pub open spec fn skill_spec(name: Seq<char>, raw: Seq<char>, path: Seq<char>) -> SkillView {
    let f = frontmatter_spec(name, raw);
    SkillView { name: f.name, description: f.description, body: f.body, path }
}

/// Read a skill's file.
pub fn parse_skill(name: &str, raw: &str, path: &str) -> (r: Skill)
    ensures
        r@ == skill_spec(name@, raw@, path@),
{
    let (found, description, body) = parse_frontmatter(name, raw);
    Skill { name: found, description, body, path: path.to_owned() }
}

// ---------------------------------------------------------------------------
// Finding
// ---------------------------------------------------------------------------

/// The directory of a project's skills.
pub open spec fn project_dir(base: Seq<char>, configured: Option<Seq<char>>) -> Seq<char> {
    paths::under_spec(
        base,
        match configured {
            Some(dir) => dir,
            None => "skills"@,
        },
    )
}

/// The directories that are searched for skills: the project's own, then the
/// global one.
pub fn skills_dirs(base: &str, configured: Option<&str>, data_dir: &str) -> (r: Vec<String>)
    ensures
        text::views(r@) == seq![
            project_dir(
                base@,
                match configured {
                    Some(d) => Some(d@),
                    None => None,
                },
            ),
            paths::under_spec(data_dir@, "skills"@),
        ],
{
    let mut r: Vec<String> = Vec::new();
    r.push(
        paths::under(
            base,
            match configured {
                Some(d) => d,
                None => "skills",
            },
        ),
    );
    r.push(paths::under(data_dir, "skills"));
    assert(text::views(r@) =~= seq![
        project_dir(
            base@,
            match configured {
                Some(d) => Some(d@),
                None => None,
            },
        ),
        paths::under_spec(data_dir@, "skills"@),
    ]);
    r
}

/// The files that may hold a skill, in the order in which they are tried: in
/// each directory a directory of its name, then a file.
pub open spec fn candidates_spec(dirs: Seq<Seq<char>>, name: Seq<char>) -> Seq<Seq<char>>
    decreases dirs.len(),
{
    if dirs.len() == 0 {
        seq![]
    } else {
        candidates_spec(dirs.drop_last(), name).push(
            paths::under_spec(paths::under_spec(dirs.last(), name), "SKILL.md"@),
        ).push(paths::under_spec(dirs.last(), name + ".md"@))
    }
}

/// The files that may hold a skill, in the order in which they are tried.
pub fn candidates(dirs: &Vec<String>, name: &str) -> (r: Vec<String>)
    ensures
        text::views(r@) == candidates_spec(text::views(dirs@), name@),
{
    let ghost all = text::views(dirs@);
    let mut out: Vec<String> = Vec::new();
    let mut i: usize = 0;
    assert(text::views(out@) =~= seq![]);
    while i < dirs.len()
        invariant
            i <= dirs@.len(),
            all == text::views(dirs@),
            text::views(out@) == candidates_spec(all.take(i as int), name@),
        decreases dirs@.len() - i,
    {
        assert(all.take(i + 1).drop_last() =~= all.take(i as int));
        let own = paths::under(dirs[i].as_str(), name);
        text::add_text(&mut out, paths::under(own.as_str(), "SKILL.md"));
        let file = text::cat2(name, ".md");
        text::add_text(&mut out, paths::under(dirs[i].as_str(), file.as_str()));
        i = i + 1;
    }
    assert(all.take(all.len() as int) =~= all);
    out
}

/// What was found at a candidate's place.
pub enum SkillFile {
    /// No file.
    Missing,
    /// A file that cannot be read; why.
    Unreadable(String),
    /// A file and its text.
    Found(String),
}

/// The first candidate, from a place on, where there is a file.
pub open spec fn first_file(files: Seq<SkillFile>, from: int) -> Option<int>
    decreases files.len() - from,
{
    if from < 0 || from >= files.len() {
        None
    } else if !(files[from] is Missing) {
        Some(from)
    } else {
        first_file(files, from + 1)
    }
}

/// The words for a skill that is nowhere.
pub open spec fn not_found_text(name: Seq<char>, dirs: Seq<Seq<char>>) -> Seq<char> {
    "skill `"@ + name + "` not found (looked for "@ + name + "/SKILL.md and "@ + name + ".md in "@
        + text::join_spec(dirs, ", "@) + ")"@
}

/// The words for a skill that cannot be read.
pub open spec fn unreadable_text(path: Seq<char>, why: Seq<char>) -> Seq<char> {
    "cannot read skill file "@ + path + ": "@ + why
}

/// What a search for a skill comes to.
pub open spec fn load_spec(
    dirs: Seq<Seq<char>>,
    name: Seq<char>,
    files: Seq<SkillFile>,
) -> Result<SkillView, Seq<char>> {
    let places = candidates_spec(dirs, name);
    match first_file(files, 0) {
        Some(i) => match files[i] {
            SkillFile::Found(raw) => Ok(skill_spec(name, raw@, places[i])),
            SkillFile::Unreadable(why) => Err(unreadable_text(places[i], why@)),
            SkillFile::Missing => Err(seq![]),
        },
        None => Err(not_found_text(name, dirs)),
    }
}

/// Load a skill by its name: the first of its candidates that is a file
/// counts. `files` says what is at each candidate's place.
pub fn load_skill(dirs: &Vec<String>, name: &str, files: &Vec<SkillFile>) -> (r: Result<
    Skill,
    String,
>)
    requires
        files@.len() == candidates_spec(text::views(dirs@), name@).len(),
    ensures
        match r {
            Ok(skill) => load_spec(text::views(dirs@), name@, files@) == Ok::<
                SkillView,
                Seq<char>,
            >(skill@),
            Err(words) => load_spec(text::views(dirs@), name@, files@) == Err::<
                SkillView,
                Seq<char>,
            >(words@),
        },
{
    let places = candidates(dirs, name);
    assert(text::views(places@).len() == places@.len());
    let mut i: usize = 0;
    while i < files.len()
        invariant
            i <= files@.len(),
            places@.len() == files@.len(),
            text::views(places@) == candidates_spec(text::views(dirs@), name@),
            first_file(files@, 0) == first_file(files@, i as int),
        decreases files@.len() - i,
    {
        assert(places@[i as int]@ == text::views(places@)[i as int]);
        match &files[i] {
            SkillFile::Found(raw) => {
                return Ok(parse_skill(name, raw.as_str(), places[i].as_str()));
            },
            SkillFile::Unreadable(why) => {
                return Err(
                    text::cat4(
                        "cannot read skill file ",
                        places[i].as_str(),
                        ": ",
                        why.as_str(),
                    ),
                );
            },
            SkillFile::Missing => {},
        }
        i = i + 1;
    }
    let listed = text::join(dirs, ", ");
    let mut words = text::cat5("skill `", name, "` not found (looked for ", name, "/SKILL.md and ");
    words.append(name);
    words.append(".md in ");
    words.append(listed.as_str());
    words.append(")");
    Err(words)
}

/// The name of a markdown file without its ending, if it is one.
pub open spec fn md_stem_spec(file: Seq<char>) -> Option<Seq<char>> {
    if file.len() > 3 && file.skip(file.len() - 3) == ".md"@ {
        Some(file.take(file.len() - 3))
    } else {
        None
    }
}

/// The name of a markdown file without its ending, if it is one. A name that
/// is nothing but the ending is not.
pub fn md_stem(file: &str) -> (r: Option<String>)
    ensures
        model::option_text(r) == md_stem_spec(file@),
{
    let v = text::chars(file);
    proof {
        reveal_strlit(".md");
    }
    if v.len() <= 3 {
        return None;
    }
    let n: usize = v.len() - 3;
    let tail = text::text_range(v.as_slice(), n, v.len());
    assert(tail@ =~= file@.skip(n as int));
    if text::same(tail.as_str(), ".md") {
        let stem = text::text_range(v.as_slice(), 0, n);
        assert(stem@ =~= file@.take(n as int));
        Some(stem)
    } else {
        None
    }
}

/// The name of a skill that an entry of a directory may hold: a directory with
/// a skill's file in it, or a markdown file.
pub fn entry_name(file: &str, holds_skill: bool) -> (r: Option<String>)
    ensures
        model::option_text(r) == (if holds_skill {
            Some(file@)
        } else {
            md_stem_spec(file@)
        }),
{
    if holds_skill {
        Some(file.to_owned())
    } else {
        md_stem(file)
    }
}

/// Whether a skill with a name is listed.
pub open spec fn has_skill(skills: Seq<Skill>, name: Seq<char>) -> bool {
    exists|i: int| 0 <= i < skills.len() && (#[trigger] skills[i]).name@ == name
}

/// The skills that entries hold, in the order in which they were found. An
/// entry whose name a skill already bears is shadowed; one that cannot be
/// loaded is left out.
pub open spec fn gathered(found: Seq<(String, Option<Skill>)>) -> Seq<Skill>
    decreases found.len(),
{
    if found.len() == 0 {
        seq![]
    } else {
        let before = gathered(found.drop_last());
        let (name, skill) = found.last();
        if name@.len() == 0 || has_skill(before, name@) {
            before
        } else {
            match skill {
                Some(s) => before.push(s),
                None => before,
            }
        }
    }
}

fn is_listed(skills: &Vec<Skill>, name: &str) -> (r: bool)
    ensures
        r == has_skill(skills@, name@),
{
    let mut i: usize = 0;
    while i < skills.len()
        invariant
            i <= skills@.len(),
            forall|k: int| 0 <= k < i ==> (#[trigger] skills@[k]).name@ != name@,
        decreases skills@.len() - i,
    {
        if text::same(skills[i].name.as_str(), name) {
            assert(skills@[i as int].name@ == name@);
            return true;
        }
        i = i + 1;
    }
    false
}

/// The skills that can be found, by name. `found` holds, for each entry of the
/// searched directories in their order, its name and the skill that loading
/// the name gives.
pub fn list_skills(found: Vec<(String, Option<Skill>)>) -> (r: Vec<Skill>)
    ensures
        r@ == named::by_name(gathered(found@)),
{
    let ghost all = found@;
    let mut rest = found;
    let mut out: Vec<Skill> = Vec::new();
    assert(all.take(0) =~= seq![]);
    assert(all.skip(0) =~= all);
    while rest.len() > 0
        invariant
            rest@.len() <= all.len(),
            rest@ == all.skip(all.len() - rest@.len()),
            out@ == gathered(all.take(all.len() - rest@.len())),
        decreases rest@.len(),
    {
        let ghost done = all.len() - rest@.len();
        assert(rest@[0] == all[done as int]);
        let (name, skill) = rest.remove(0);
        assert(rest@ =~= all.skip(done + 1));
        assert(all.take(done + 1).drop_last() =~= all.take(done as int));
        assert(all.take(done + 1).last() == all[done as int]);
        if !name.as_str().is_empty() && !is_listed(&out, name.as_str()) {
            match skill {
                Some(s) => {
                    out.push(s);
                },
                None => {},
            }
        }
    }
    assert(all.take(all.len() as int) =~= all);
    named::sort_by_name(out)
}

// ---------------------------------------------------------------------------
// Composing
// ---------------------------------------------------------------------------

/// A skill as a prompt holds it.
pub open spec fn section_spec(s: SkillView) -> Seq<char> {
    "# Skill: "@ + s.name + "\n\n"@ + s.body
}

/// A prompt with skills behind it.
pub open spec fn composed_spec(system: Seq<char>, skills: Seq<Skill>) -> Seq<char>
    decreases skills.len(),
{
    if skills.len() == 0 {
        system
    } else {
        let before = composed_spec(system, skills.drop_last());
        (if before.len() == 0 {
            before
        } else {
            before + "\n\n"@
        }) + section_spec(skills.last()@)
    }
}

/// A prompt with skills behind it, in their order. Without skills a prompt
/// stays as it is, and none stays none.
pub fn apply_skills(system: Option<String>, skills: &Vec<Skill>) -> (r: Option<String>)
    ensures
        if skills@.len() == 0 {
            r == system
        } else {
            r matches Some(prompt) && prompt@ == composed_spec(
                match system {
                    Some(s) => s@,
                    None => seq![],
                },
                skills@,
            )
        },
{
    if skills.len() == 0 {
        return system;
    }
    let mut out = match system {
        Some(s) => s,
        None => {
            let none = String::new();
            assert(none@ =~= seq![]);
            none
        },
    };
    let ghost given = out@;
    let mut i: usize = 0;
    assert(skills@.take(0) =~= seq![]);
    while i < skills.len()
        invariant
            i <= skills@.len(),
            out@ == composed_spec(given, skills@.take(i as int)),
        decreases skills@.len() - i,
    {
        assert(skills@.take(i + 1).drop_last() =~= skills@.take(i as int));
        assert(skills@.take(i + 1).last() == skills@[i as int]);
        if !out.as_str().is_empty() {
            out.append("\n\n");
        }
        let section = text::cat4(
            "# Skill: ",
            skills[i].name.as_str(),
            "\n\n",
            skills[i].body.as_str(),
        );
        out.append(section.as_str());
        i = i + 1;
    }
    assert(skills@.take(skills@.len() as int) =~= skills@);
    Some(out)
}

/// A prompt with project instructions behind it.
pub open spec fn instructed_spec(system: Seq<char>, contexts: Seq<ProjectContext>) -> Seq<char>
    decreases contexts.len(),
{
    if contexts.len() == 0 {
        system
    } else {
        let before = instructed_spec(system, contexts.drop_last());
        (if before.len() == 0 {
            before
        } else {
            before + "\n\n"@
        }) + "# Project instructions ("@ + contexts.last().path@ + ")\n\n"@
            + contexts.last().content@
    }
}

/// The system prompt of a stage or agent: its own, its skills, and the project
/// instructions, in this order. Where there is none of them there is no prompt.
pub fn compose_system(
    system: Option<String>,
    skills: &Vec<Skill>,
    contexts: &Vec<ProjectContext>,
) -> (r: Option<String>)
    ensures
        ({
            let own = match system {
                Some(s) => s@,
                None => seq![],
            };
            if skills@.len() == 0 && contexts@.len() == 0 {
                r == system
            } else {
                r matches Some(prompt) && prompt@ == instructed_spec(
                    composed_spec(own, skills@),
                    contexts@,
                )
            }
        }),
{
    let skilled = apply_skills(system, skills);
    if contexts.len() == 0 {
        return skilled;
    }
    let mut out = match skilled {
        Some(s) => s,
        None => {
            let none = String::new();
            assert(none@ =~= seq![]);
            none
        },
    };
    let ghost given = out@;
    let mut i: usize = 0;
    assert(contexts@.take(0) =~= seq![]);
    while i < contexts.len()
        invariant
            i <= contexts@.len(),
            out@ == instructed_spec(given, contexts@.take(i as int)),
        decreases contexts@.len() - i,
    {
        assert(contexts@.take(i + 1).drop_last() =~= contexts@.take(i as int));
        assert(contexts@.take(i + 1).last() == contexts@[i as int]);
        if !out.as_str().is_empty() {
            out.append("\n\n");
        }
        out.append("# Project instructions (");
        out.append(contexts[i].path.as_str());
        out.append(")\n\n");
        out.append(contexts[i].content.as_str());
        i = i + 1;
    }
    assert(contexts@.take(contexts@.len() as int) =~= contexts@);
    Some(out)
}

/// The words for a skill that somebody needs and that cannot be loaded.
pub fn required_skill_error(owner: &str, why: &str) -> (r: String)
    ensures
        r@ == "`"@ + owner@ + "` requires skills: "@ + why@,
{
    text::cat4("`", owner, "` requires skills: ", why)
}

/// A prompt is kept in front of the skills that are added to it.
pub proof fn law_skills_follow_the_prompt(system: Seq<char>, skills: Seq<Skill>)
    ensures
        find::starts_spec(composed_spec(system, skills), system),
    decreases skills.len(),
{
    if skills.len() == 0 {
        assert(system.take(system.len() as int) =~= system);
    } else {
        law_skills_follow_the_prompt(system, skills.drop_last());
        let before = composed_spec(system, skills.drop_last());
        assert(composed_spec(system, skills).take(system.len() as int) =~= before.take(
            system.len() as int,
        ));
    }
}

} // verus!
