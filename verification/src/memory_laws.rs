//! What holds of looking back: sessions, lessons and commits.

use vstd::prelude::*;
use vstd::string::*;

use crate::find;
use crate::git;
use crate::model;
use crate::reflect;
use crate::session::Session;
use crate::slug;
use crate::table::Table;
use crate::text;

verus! {

/// The first few of a sequence.
pub open spec fn at_most<T>(s: Seq<T>, n: int) -> Seq<T> {
    if s.len() <= n {
        s
    } else {
        s.take(n)
    }
}

/// The sessions that are looked at are, in order, those of the directory that
/// were not looked at since they were saved last, twelve at most.
pub proof fn law_new_sessions_are_looked_at(
    sessions: Seq<Session>,
    cwd: Seq<char>,
    reflected: Table<u64>,
)
    ensures
        reflect::new_places(sessions, cwd, reflected) == at_most(
            Seq::new(sessions.len(), |i: int| i).filter(
                |i: int|
                    sessions[i].cwd@ == cwd && !(reflected.has_name(sessions[i].id@)
                        && reflected.at(sessions[i].id@) == sessions[i].updated_at),
            ),
            12,
        ),
    decreases sessions.len(),
{
    reveal(Seq::filter);
    let fresh = |i: int|
        sessions[i].cwd@ == cwd && !(reflected.has_name(sessions[i].id@) && reflected.at(
            sessions[i].id@,
        ) == sessions[i].updated_at);
    let all = Seq::new(sessions.len(), |i: int| i);
    if sessions.len() > 0 {
        let fewer = sessions.drop_last();
        let n = sessions.len() - 1;
        law_new_sessions_are_looked_at(fewer, cwd, reflected);
        let before = |i: int|
            fewer[i].cwd@ == cwd && !(reflected.has_name(fewer[i].id@) && reflected.at(
                fewer[i].id@,
            ) == fewer[i].updated_at);
        let most = Seq::new(fewer.len(), |i: int| i);
        assert(all.drop_last() =~= most);
        lemma_same_filter(most, before, fresh);
        let kept = most.filter(fresh);
        assert(all.last() == n);
        if fresh(n) {
            assert(all.filter(fresh) =~= kept.push(n));
            if kept.len() < 12 {
                assert(at_most(kept.push(n), 12) =~= at_most(kept, 12).push(n));
            } else {
                assert(at_most(kept.push(n), 12) =~= at_most(kept, 12));
            }
        } else {
            assert(all.filter(fresh) =~= kept);
        }
    } else {
        assert(all.filter(fresh) =~= seq![]);
    }
}

proof fn lemma_same_filter(s: Seq<int>, a: spec_fn(int) -> bool, b: spec_fn(int) -> bool)
    requires
        forall|k: int| 0 <= k < s.len() ==> a(#[trigger] s[k]) == b(s[k]),
    ensures
        s.filter(a) == s.filter(b),
    decreases s.len(),
{
    reveal(Seq::filter);
    if s.len() > 0 {
        let t = s.drop_last();
        assert forall|k: int| 0 <= k < t.len() implies a(#[trigger] t[k]) == b(t[k]) by {
            assert(t[k] == s[k]);
        }
        lemma_same_filter(t, a, b);
        assert(s[s.len() - 1] == s.last());
    }
}

/// Sessions of a directory are kept in their order, and no others with them.
pub proof fn law_sessions_are_told_apart_by_directory(
    sessions: Seq<Session>,
    first: Session,
    cwd: Seq<char>,
)
    ensures
        reflect::held_in(seq![], cwd) == Seq::<Session>::empty(),
        reflect::held_in(seq![first] + sessions, cwd) == if first.cwd@ == cwd {
            seq![first] + reflect::held_in(sessions, cwd)
        } else {
            reflect::held_in(sessions, cwd)
        },
{
    assert((seq![first] + sessions).skip(1) =~= sessions);
}

/// A lesson is kept on one line, cut to 300 characters; blank ones are left
/// out, and no more than fifteen are kept.
pub proof fn law_lessons_are_kept_in_order(lessons: Seq<Seq<char>>, lesson: Seq<char>)
    ensures
        reflect::validated(seq![]) == Seq::<Seq<char>>::empty(),
        ({
            let before = reflect::validated(lessons);
            let after = reflect::validated(lessons.push(lesson));
            let line = text::squash_spec(lesson);
            &&& line.len() == 0 || before.len() >= 15 ==> after == before
            &&& line.len() > 0 && before.len() < 15 ==> after == before.push(
                text::excerpt_spec(line, 300),
            )
        }),
{
    assert(lessons.push(lesson).drop_last() =~= lessons);
}

/// The lessons that a list has and another one lacks are told in order.
pub proof fn law_new_lessons_are_told(list: Seq<Seq<char>>, other: Seq<Seq<char>>)
    ensures
        reflect::missing_from(list, other) == list.filter(|s: Seq<char>| !other.contains(s)),
    decreases list.len(),
{
    reveal(Seq::filter);
    if list.len() > 0 {
        law_new_lessons_are_told(list.drop_last(), other);
    }
}

/// Proposed skills are taken in order where their name gives a file name,
/// three at most.
pub proof fn law_named_skills_are_taken(
    skills: Seq<reflect::SkillProposal>,
    skill: reflect::SkillProposal,
)
    ensures
        reflect::taken_skills(seq![]) == Seq::<(int, Seq<char>)>::empty(),
        ({
            let before = reflect::taken_skills(skills);
            let after = reflect::taken_skills(skills.push(skill));
            match slug::slug_spec(skill.name@) {
                Some(name) => if before.len() < 3 {
                    after == before.push((skills.len() as int, name))
                } else {
                    after == before
                },
                None => after == before,
            }
        }),
{
    assert(skills.push(skill).drop_last() =~= skills);
    assert(skills.push(skill).last() == skill);
}

proof fn lemma_last_index(s: Seq<char>, c: char)
    ensures
        match reflect::last_index(s, c) {
            Some(i) => 0 <= i < s.len() && s[i] == c && (forall|j: int|
                i < j < s.len() ==> #[trigger] s[j] != c),
            None => !s.contains(c),
        },
    decreases s.len(),
{
    if s.len() > 0 && s.last() != c {
        let t = s.drop_last();
        lemma_last_index(t, c);
        match reflect::last_index(t, c) {
            Some(i) => {
                assert(t[i] == s[i]);
                assert forall|j: int| i < j < s.len() implies #[trigger] s[j] != c by {
                    if j < t.len() {
                        assert(t[j] == s[j]);
                    }
                }
            },
            None => {
                if s.contains(c) {
                    let j = choose|j: int| 0 <= j < s.len() && s[j] == c;
                    assert(t[j] == c);
                }
            },
        }
    }
}

/// The object in a reply reaches from its first opening brace to its last
/// closing one; the words around it are left out.
pub proof fn law_the_object_is_cut_out_of_a_reply(
    front: Seq<char>,
    inner: Seq<char>,
    back: Seq<char>,
)
    requires
        !front.contains('{'),
        !back.contains('}'),
    ensures
        reflect::object_spec(front + seq!['{'] + inner + seq!['}'] + back) == Some(
            seq!['{'] + inner + seq!['}'],
        ),
        reflect::object_spec(front) is None,
        reflect::object_spec(back) is None,
{
    let whole = front + seq!['{'] + inner + seq!['}'] + back;
    let rest = inner + seq!['}'] + back;
    assert(whole =~= front + seq!['{'] + rest);
    find::lemma_find(whole, seq!['{'], 0);
    find::lemma_find(front, seq!['{'], 0);
    let n = front.len() as int;
    assert(find::find_spec(whole, seq!['{'], 0) == Some(n)) by {
        assert(whole.subrange(n, n + 1) =~= seq!['{']);
        assert(find::occurs_at(whole, seq!['{'], n));
        let at = find::find_spec(whole, seq!['{'], 0)->0;
        if at < n {
            assert(whole.subrange(at, at + 1)[0] == '{');
            assert(front[at] == '{');
        }
    }
    lemma_last_index(whole, '}');
    lemma_last_index(back, '}');
    let e = n + 1 + inner.len();
    assert(whole[e] == '}');
    let end = reflect::last_index(whole, '}');
    assert(end is Some) by {
        assert(whole.contains('}'));
    }
    if end->0 > e {
        assert(back[end->0 - e - 1] == '}');
    }
    assert(end == Some(e));
    assert(whole.subrange(n, e + 1) =~= seq!['{'] + inner + seq!['}']);
    if find::find_spec(front, seq!['{'], 0) is Some {
        let at = find::find_spec(front, seq!['{'], 0)->0;
        assert(front.subrange(at, at + 1)[0] == '{');
        assert(front[at] == '{');
    }
}

/// The model that reflects is the one that was chosen, else the one that is
/// set, else the one of the first stage.
pub proof fn law_reflection_has_a_model(config: crate::config::Config, name: Seq<char>)
    ensures
        reflect::model_spec(config, Some(name)) == Some(name),
        config.settings.reflect_model is Some ==> reflect::model_spec(config, None) == Some(
            config.settings.reflect_model->0@,
        ),
        config.settings.reflect_model is None && config.stages@.len() > 0 ==> reflect::model_spec(
            config,
            None,
        ) == Some(config.stages@[0].model@),
{
}

/// What the user said is gathered in order, and the last thing that the model
/// said is its final reply.
pub proof fn law_sessions_are_read_message_by_message(
    history: Seq<model::MessageView>,
    m: model::MessageView,
)
    ensures
        reflect::user_texts(seq![]) == Seq::<Seq<char>>::empty(),
        reflect::user_texts(history.push(m)) == match m {
            model::MessageView::User { content } => reflect::user_texts(history).push(content),
            _ => reflect::user_texts(history),
        },
        reflect::final_reply(seq![]) is None,
        reflect::final_reply(history.push(m)) == match m {
            model::MessageView::Assistant { content: Some(s), .. } => Some(s),
            _ => reflect::final_reply(history),
        },
{
    assert(history.push(m).drop_last() =~= history);
}

/// A commit's record is its hash, author, time, subject and body between zero
/// bytes, and its patch behind them.
pub proof fn law_commits_are_read_field_by_field(
    hash: Seq<char>,
    author: Seq<char>,
    at: Seq<char>,
    subject: Seq<char>,
    body: Seq<char>,
    patch: Seq<char>,
)
    requires
        !hash.contains('\0'),
        !author.contains('\0'),
        !at.contains('\0'),
        !subject.contains('\0'),
        !body.contains('\0'),
        patch.len() <= 60_000,
        !(patch.len() > 0 && patch[0] == '\n'),
    ensures
        ({
            let z = seq!['\0'];
            let c = git::commit_spec(
                hash + z + (author + z + (at + z + (subject + z + (body + z + patch)))),
            );
            &&& c.hash == hash
            &&& c.author == author
            &&& c.subject == subject
            &&& c.body == body
            &&& c.diff == patch
            &&& c.short == if hash.len() <= 7 {
                hash
            } else {
                hash.take(7)
            }
            &&& c.at == git::time_spec(at)
        }),
{
    let z = seq!['\0'];
    let r4 = body + z + patch;
    let r3 = subject + z + r4;
    let r2 = at + z + r3;
    let r1 = author + z + r2;
    find::lemma_split_at(hash, '\0', r1);
    find::lemma_split_at(author, '\0', r2);
    find::lemma_split_at(at, '\0', r3);
    find::lemma_split_at(subject, '\0', r4);
    find::lemma_split_at(body, '\0', patch);
}

/// A patch counts for each file, in order, the lines that were put in and
/// taken out behind the file's name.
pub proof fn law_patches_count_lines_for_each_file(
    lines: Seq<Seq<char>>,
    line: Seq<char>,
    path: Seq<char>,
)
    ensures
        git::touched_spec(seq![]) == Seq::<git::FileCount>::empty(),
        line == "+++ b/"@ + path ==> git::touched_spec(lines.push(line)) == git::touched_spec(
            lines,
        ).push(git::FileCount { path, added: 0, removed: 0 }),
        ({
            let before = git::touched_spec(lines);
            let after = git::touched_spec(lines.push(line));
            &&& before.len() > 0 && line.len() > 0 && line[0] == '+' && !(line.len() > 1 && line[1]
                == '+') ==> after == before.update(
                before.len() - 1,
                git::FileCount { added: before.last().added + 1, ..before.last() },
            )
            &&& before.len() > 0 && line.len() > 0 && line[0] == '-' && !(line.len() > 1 && line[1]
                == '-') ==> after == before.update(
                before.len() - 1,
                git::FileCount { removed: before.last().removed + 1, ..before.last() },
            )
            &&& !(line.len() > 0 && (line[0] == '+' || line[0] == '-')) ==> after == before
        }),
{
    reveal_strlit("+++ b/");
    reveal_strlit("+++");
    reveal_strlit("---");
    reveal_strlit("+");
    reveal_strlit("-");
    assert(lines.push(line).drop_last() =~= lines);
    let before = git::touched_spec(lines);
    let after = git::touched_spec(lines.push(line));
    if line == "+++ b/"@ + path {
        crate::splitting_laws::law_texts_are_found_where_they_stand(
            seq![],
            "+++ b/"@,
            path,
            line,
        );
    }
    assert(find::starts_spec(line, "+++ b/"@) ==> line[0] == '+' && line[1] == '+') by {
        if find::starts_spec(line, "+++ b/"@) {
            assert(line.take(6)[0] == '+');
            assert(line.take(6)[1] == '+');
        }
    }
    assert(find::starts_spec(line, "+++"@) ==> line[0] == '+' && line[1] == '+') by {
        if find::starts_spec(line, "+++"@) {
            assert(line.take(3)[0] == '+');
            assert(line.take(3)[1] == '+');
        }
    }
    assert(find::starts_spec(line, "---"@) ==> line[0] == '-' && line[1] == '-') by {
        if find::starts_spec(line, "---"@) {
            assert(line.take(3)[0] == '-');
            assert(line.take(3)[1] == '-');
        }
    }
    assert(find::starts_spec(line, "+"@) <==> line.len() > 0 && line[0] == '+') by {
        if line.len() > 0 {
            assert(line.take(1)[0] == line[0]);
            if line[0] == '+' {
                assert(line.take(1) =~= "+"@);
            }
        }
    }
    assert(find::starts_spec(line, "-"@) <==> line.len() > 0 && line[0] == '-') by {
        if line.len() > 0 {
            assert(line.take(1)[0] == line[0]);
            if line[0] == '-' {
                assert(line.take(1) =~= "-"@);
            }
        }
    }
    if before.len() > 0 {
        let more = git::FileCount { added: before.last().added + 1, ..before.last() };
        let less = git::FileCount { removed: before.last().removed + 1, ..before.last() };
        assert(before.drop_last().push(more) =~= before.update(before.len() - 1, more));
        assert(before.drop_last().push(less) =~= before.update(before.len() - 1, less));
    }
}

/// A digest tells of the commits from the last of the list to the first, as
/// long as they fit, and what was told stays.
pub proof fn law_digests_tell_what_fits(
    commits: Seq<git::CommitView>,
    findings: Seq<git::FindingView>,
    n: int,
    out: Seq<char>,
    budget: nat,
)
    requires
        0 < n <= commits.len(),
    ensures
        git::digest_from(commits, findings, 0, out, budget) == out,
        ({
            let section = git::section_spec(commits[n - 1], findings, (n - 1) as nat);
            text::byte_len(out) + text::byte_len(section) <= budget ==> git::digest_from(
                commits,
                findings,
                n,
                out,
                budget,
            ) == git::digest_from(commits, findings, n - 1, out + section, budget)
        }),
        out.is_prefix_of(git::digest_from(commits, findings, n, out, budget)),
    decreases n,
{
    let section = git::section_spec(commits[n - 1], findings, (n - 1) as nat);
    let all = git::digest_from(commits, findings, n, out, budget);
    if text::byte_len(out) + text::byte_len(section) <= budget {
        if n > 1 {
            law_digests_tell_what_fits(commits, findings, n - 1, out + section, budget);
        } else {
            assert(git::digest_from(commits, findings, 0, out + section, budget) == out + section);
        }
        assert(all.subrange(0, (out + section).len() as int) =~= out + section);
        assert forall|i: int| 0 <= i < out.len() implies all[i] == out[i] by {
            assert(all.subrange(0, (out + section).len() as int)[i] == (out + section)[i]);
        }
        assert(out =~= all.subrange(0, out.len() as int));
    } else {
        assert(out =~= all.subrange(0, out.len() as int));
    }
}

} // verus!
