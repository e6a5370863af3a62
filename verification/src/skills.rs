//! Skills: what was found on disk, which are enabled, and what the
//! settings screen shows of them.
use vstd::prelude::*;

use crate::order::{key_of, sort_keyed, sort_with, Keyed};
use crate::registry::{lemma_name_set_push, name_set, unique_strings};
use crate::text::{chars_of, owned, push_str, starts_with, str_eq};

verus! {

broadcast use vstd::string::group_string_axioms;

/// A skill as read from its `SKILL.md`; `path` is where it was found.
#[derive(Debug, Clone)]
pub struct Skill {
    pub name: String,
    pub description: String,
    pub license: Option<String>,
    pub compatibility: Option<String>,
    pub allowed_tools: Vec<String>,
    pub path: String,
    pub body: String,
}

/// Two skills that agree in every field.
pub open spec fn same_skill(a: Skill, b: Skill) -> bool {
    &&& a.name == b.name
    &&& a.description == b.description
    &&& a.license == b.license
    &&& a.compatibility == b.compatibility
    &&& a.allowed_tools@ == b.allowed_tools@
    &&& a.path == b.path
    &&& a.body == b.body
}

impl Skill {
    /// A copy of the skill.
    pub fn copy(&self) -> (r: Skill)
        ensures
            same_skill(r, *self),
    {
        let allowed_tools = self.allowed_tools.clone();
        assert(allowed_tools@ =~= self.allowed_tools@);
        Skill {
            name: self.name.clone(),
            description: self.description.clone(),
            license: self.license.clone(),
            compatibility: self.compatibility.clone(),
            allowed_tools,
            path: self.path.clone(),
            body: self.body.clone(),
        }
    }
}

/// A skill as the settings screen shows it.
#[derive(Debug, Clone)]
pub struct SkillInfo {
    pub name: String,
    pub description: String,
    pub enabled: bool,
    pub path: String,
}

impl Keyed for SkillInfo {
    open spec fn key(&self) -> Seq<char> {
        self.name@
    }

    fn key_chars(&self) -> (r: Vec<char>) {
        chars_of(self.name.as_str())
    }
}

/// Whether a skill of that name is among `skills`.
pub open spec fn has_skill(skills: Seq<Skill>, name: Seq<char>) -> bool {
    exists|i: int| 0 <= i < skills.len() && (#[trigger] skills[i]).name@ == name
}

/// The skills of several directories in priority order: a skill whose
/// name an earlier one took is passed over.
pub open spec fn merged(found: Seq<Skill>, next: Seq<Skill>) -> Seq<Skill>
    decreases next.len(),
{
    if next.len() == 0 {
        found
    } else {
        let m = merged(found, next.drop_last());
        if has_skill(m, next.last().name@) {
            m
        } else {
            m.push(next.last())
        }
    }
}

fn has_skill_exec(skills: &Vec<Skill>, name: &str) -> (r: bool)
    ensures
        r == has_skill(skills@, name@),
{
    let mut i: usize = 0;
    while i < skills.len()
        invariant
            i <= skills@.len(),
            forall|j: int| 0 <= j < i ==> (#[trigger] skills@[j]).name@ != name@,
        decreases skills.len() - i,
    {
        if str_eq(skills[i].name.as_str(), name) {
            assert(skills@[i as int].name@ == name@);
            return true;
        }
        i = i + 1;
    }
    false
}

/// Adds the skills of the next directory, each one whose name is not yet
/// taken, in order.
pub fn merge_skills(skills: &mut Vec<Skill>, found: Vec<Skill>)
    ensures
        final(skills)@ == merged(old(skills)@, found@),
{
    let ghost start = old(skills)@;
    let ghost orig = found@;
    let n = found.len();
    let mut rest = found;
    let mut k: usize = 0;
    proof {
        assert(orig.take(0) =~= Seq::<Skill>::empty());
        assert(rest@ =~= orig.skip(0));
    }
    while rest.len() > 0
        invariant
            k <= n,
            n == orig.len(),
            rest@ == orig.skip(k as int),
            skills@ == merged(start, orig.take(k as int)),
        decreases rest.len(),
    {
        let s = rest.remove(0);
        proof {
            assert(rest@ =~= orig.skip(k + 1));
            assert(orig.take(k + 1).drop_last() =~= orig.take(k as int));
            assert(orig.take(k + 1).last() == s);
        }
        if !has_skill_exec(skills, s.name.as_str()) {
            skills.push(s);
        }
        k = k + 1;
    }
    proof {
        assert(orig.take(k as int) =~= orig);
    }
}

/// How the settings screen shows skill `i`.
pub open spec fn skill_info(s: Skill, enabled: Seq<String>) -> SkillInfo {
    SkillInfo { name: s.name, description: s.description, enabled: name_set(enabled).contains(s.name@), path: s.path }
}

/// The skills for the settings screen, in name order, each marked enabled
/// where its name is.
pub fn collect_skill_infos(skills: &[Skill], enabled: &[String]) -> (r: Vec<SkillInfo>)
    ensures
        r@ == sort_with(
            Seq::new(skills@.len(), |i: int| skill_info(skills@[i], enabled@)),
            key_of::<SkillInfo>(),
        ),
{
    let ghost all = Seq::new(skills@.len(), |i: int| skill_info(skills@[i], enabled@));
    let mut infos: Vec<SkillInfo> = Vec::new();
    let mut i: usize = 0;
    while i < skills.len()
        invariant
            i <= skills@.len(),
            all == Seq::new(skills@.len(), |i: int| skill_info(skills@[i], enabled@)),
            infos@ == all.take(i as int),
        decreases skills.len() - i,
    {
        let s = &skills[i];
        let mut on = false;
        let mut j: usize = 0;
        while j < enabled.len()
            invariant
                j <= enabled@.len(),
                on == exists|q: int| 0 <= q < j && (#[trigger] enabled@[q])@ == s.name@,
            decreases enabled.len() - j,
        {
            if str_eq(enabled[j].as_str(), s.name.as_str()) {
                on = true;
            }
            j = j + 1;
        }
        let info = SkillInfo { name: s.name.clone(), description: s.description.clone(), enabled: on, path: s.path.clone() };
        proof {
            assert(info == skill_info(skills@[i as int], enabled@));
            assert(all.take(i + 1) =~= all.take(i as int).push(info));
        }
        infos.push(info);
        i = i + 1;
    }
    proof {
        assert(all.take(i as int) =~= all);
    }
    sort_keyed(infos)
}

/// The enabled set with `name` switched: taken out where it is in, put in
/// where it is not.
pub open spec fn toggled(enabled: Set<Seq<char>>, name: Seq<char>) -> Set<Seq<char>> {
    if enabled.contains(name) {
        enabled.remove(name)
    } else {
        enabled.insert(name)
    }
}

/// Switching a skill twice leaves the enabled set as it was.
pub proof fn law_toggle_twice(enabled: Set<Seq<char>>, name: Seq<char>)
    ensures
        toggled(toggled(enabled, name), name) == enabled,
{
    assert(toggled(toggled(enabled, name), name) =~= enabled);
}

/// Flips whether a skill is enabled; `Skill not found: {name}` for a name
/// no skill has, and nothing changes.
pub fn toggle_skill(skills: &[Skill], enabled: &mut Vec<String>, name: &str) -> (r: Result<(), String>)
    requires
        unique_strings(old(enabled)@),
    ensures
        unique_strings(final(enabled)@),
        !has_skill(skills@, name@) ==> (r matches Err(m) && m@ == "Skill not found: "@ + name@)
            && final(enabled)@ == old(enabled)@,
        has_skill(skills@, name@) ==> r is Ok && name_set(final(enabled)@) == toggled(name_set(old(enabled)@), name@),
{
    let mut i: usize = 0;
    let mut found = false;
    while i < skills.len()
        invariant
            i <= skills@.len(),
            found == exists|j: int| 0 <= j < i && (#[trigger] skills@[j]).name@ == name@,
        decreases skills.len() - i,
    {
        if str_eq(skills[i].name.as_str(), name) {
            found = true;
        }
        i = i + 1;
    }
    if !found {
        let mut m = owned("Skill not found: ");
        push_str(&mut m, name);
        return Err(m);
    }
    assert(has_skill(skills@, name@));
    let mut k: usize = 0;
    while k < enabled.len()
        invariant
            k <= enabled@.len(),
            enabled@ == old(enabled)@,
            unique_strings(enabled@),
            has_skill(skills@, name@),
            forall|j: int| 0 <= j < k ==> (#[trigger] enabled@[j])@ != name@,
        decreases enabled.len() - k,
    {
        if str_eq(enabled[k].as_str(), name) {
            proof {
                crate::registry::lemma_name_set_remove(enabled@, k as int);
                assert(name_set(enabled@).contains(name@));
            }
            enabled.remove(k);
            return Ok(());
        }
        k = k + 1;
    }
    assert(!name_set(enabled@).contains(name@));
    crate::mcp_config::set_insert(enabled, owned(name));
    Ok(())
}

/// Whether `name` is enabled after a refresh that found `found`, where
/// `known` were the skills before and `enabled` the names enabled then: a
/// found skill stays as it was, a newly found one is enabled, and one no
/// longer found drops out.
pub open spec fn enabled_after_refresh(
    known: Seq<Skill>,
    found: Seq<Skill>,
    enabled: Set<Seq<char>>,
    name: Seq<char>,
) -> bool {
    has_skill(found, name) && (enabled.contains(name) || !has_skill(known, name))
}

/// Whether one of `skills` has this name.
fn has_skill_named(skills: &[Skill], name: &str) -> (r: bool)
    ensures
        r == has_skill(skills@, name@),
{
    let mut i: usize = 0;
    while i < skills.len()
        invariant
            i <= skills@.len(),
            forall|j: int| 0 <= j < i ==> (#[trigger] skills@[j]).name@ != name@,
        decreases skills.len() - i,
    {
        if str_eq(skills[i].name.as_str(), name) {
            return true;
        }
        i = i + 1;
    }
    false
}

/// Whether `name` is among `names`.
fn has_name(names: &Vec<String>, name: &str) -> (r: bool)
    ensures
        r == name_set(names@).contains(name@),
{
    let mut i: usize = 0;
    while i < names.len()
        invariant
            i <= names@.len(),
            forall|j: int| 0 <= j < i ==> (#[trigger] names@[j])@ != name@,
        decreases names.len() - i,
    {
        if str_eq(names[i].as_str(), name) {
            assert(name_set(names@).contains(name@));
            return true;
        }
        i = i + 1;
    }
    false
}

/// The enabled names after a refresh that found `skills` where `known`
/// were the skills before: those still found keep their state, newly found
/// ones are enabled, and names no longer found drop out.
pub fn enable_found(known: &[Skill], skills: &[Skill], enabled: &mut Vec<String>)
    requires
        unique_strings(old(enabled)@),
    ensures
        unique_strings(final(enabled)@),
        name_set(final(enabled)@) == Set::new(
            |n: Seq<char>| enabled_after_refresh(known@, skills@, name_set(old(enabled)@), n),
        ),
{
    let ghost e0 = name_set(enabled@);
    let mut out: Vec<String> = Vec::new();
    let mut i: usize = 0;
    proof {
        assert(name_set(out@) =~= Set::new(
            |n: Seq<char>| enabled_after_refresh(known@, skills@.take(0), e0, n),
        ));
    }
    while i < skills.len()
        invariant
            i <= skills@.len(),
            e0 == name_set(enabled@),
            e0 == name_set(old(enabled)@),
            unique_strings(out@),
            name_set(out@) == Set::new(|n: Seq<char>| enabled_after_refresh(known@, skills@.take(i as int), e0, n)),
        decreases skills.len() - i,
    {
        let n = skills[i].name.as_str();
        let on = has_name(enabled, n);
        let fresh = !has_skill_named(known, n);
        let ghost before = name_set(out@);
        if on || fresh {
            crate::mcp_config::set_insert(&mut out, skills[i].name.clone());
        }
        proof {
            let b = Set::new(|m: Seq<char>| enabled_after_refresh(known@, skills@.take(i as int), e0, m));
            let a = Set::new(|m: Seq<char>| enabled_after_refresh(known@, skills@.take(i + 1), e0, m));
            assert forall|m: Seq<char>| #[trigger] has_skill(skills@.take(i + 1), m) == (has_skill(
                skills@.take(i as int),
                m,
            ) || m == skills@[i as int].name@) by {
                if has_skill(skills@.take(i + 1), m) {
                    let j = choose|j: int| 0 <= j < i + 1 && (#[trigger] skills@.take(i + 1)[j]).name@ == m;
                    if j < i {
                        assert(skills@.take(i as int)[j] == skills@.take(i + 1)[j]);
                    }
                }
                if has_skill(skills@.take(i as int), m) {
                    let j = choose|j: int| 0 <= j < i && (#[trigger] skills@.take(i as int)[j]).name@ == m;
                    assert(skills@.take(i + 1)[j] == skills@.take(i as int)[j]);
                }
                if m == skills@[i as int].name@ {
                    assert(skills@.take(i + 1)[i as int] == skills@[i as int]);
                }
            }
            if on || fresh {
                assert(a =~= b.insert(skills@[i as int].name@));
            } else {
                assert(a =~= b);
            }
        }
        i = i + 1;
    }
    proof {
        assert(skills@.take(i as int) =~= skills@);
    }
    *enabled = out;
}

/// The skills a registered skill tool offers: the enabled ones, in order.
pub open spec fn enabled_skills_of(skills: Seq<Skill>, enabled: Set<Seq<char>>) -> Seq<Skill>
    decreases skills.len(),
{
    if skills.len() == 0 {
        Seq::empty()
    } else if enabled.contains(skills.last().name@) {
        enabled_skills_of(skills.drop_last(), enabled).push(skills.last())
    } else {
        enabled_skills_of(skills.drop_last(), enabled)
    }
}

/// The enabled skills, in order; where none is enabled no skill tool is
/// registered.
pub fn enabled_skills(skills: &Vec<Skill>, enabled: &Vec<String>) -> (r: Vec<Skill>)
    ensures
        r@.len() == enabled_skills_of(skills@, name_set(enabled@)).len(),
        forall|i: int| 0 <= i < r@.len() ==> same_skill(#[trigger] r@[i], enabled_skills_of(skills@, name_set(enabled@))[i]),
{
    let ghost es = name_set(enabled@);
    let mut out: Vec<Skill> = Vec::new();
    let mut i: usize = 0;
    while i < skills.len()
        invariant
            i <= skills@.len(),
            es == name_set(enabled@),
            out@.len() == enabled_skills_of(skills@.take(i as int), es).len(),
            forall|k: int| 0 <= k < out@.len() ==> same_skill(#[trigger] out@[k], enabled_skills_of(skills@.take(i as int), es)[k]),
        decreases skills.len() - i,
    {
        proof {
            assert(skills@.take(i + 1).drop_last() =~= skills@.take(i as int));
            assert(skills@.take(i + 1).last() == skills@[i as int]);
        }
        let mut on = false;
        let mut j: usize = 0;
        while j < enabled.len()
            invariant
                j <= enabled@.len(),
                i < skills@.len(),
                on == exists|q: int| 0 <= q < j && (#[trigger] enabled@[q])@ == skills@[i as int].name@,
            decreases enabled.len() - j,
        {
            if str_eq(enabled[j].as_str(), skills[i].name.as_str()) {
                on = true;
            }
            j = j + 1;
        }
        if on {
            let ghost before = out@;
            out.push(skills[i].copy());
            proof {
                assert forall|k: int| 0 <= k < out@.len() implies same_skill(#[trigger] out@[k], enabled_skills_of(skills@.take(i + 1), es)[k]) by {
                    if k < before.len() {
                        assert(out@[k] == before[k]);
                    }
                }
            }
        }
        i = i + 1;
    }
    proof {
        assert(skills@.take(i as int) =~= skills@);
    }
    out
}

/// Whether a registered tool name belongs to the skills.
pub open spec fn skill_tool_name(name: Seq<char>) -> bool {
    name == "load_skill"@ || ("skill_"@.len() <= name.len() && name.subrange(0, "skill_"@.len() as int) == "skill_"@)
}

/// Whether a registered tool belongs to the skills: `load_skill`, or a
/// `skill_*` tool of an earlier layout; such tools are dropped on a resync.
pub fn is_skill_tool(name: &str) -> (r: bool)
    ensures
        r == skill_tool_name(name@),
{
    let cs = chars_of(name);
    let p = chars_of("skill_");
    str_eq(name, "load_skill") || starts_with(cs.as_slice(), p.as_slice())
}

/// The names among `names` that belong to the skills, in order.
pub open spec fn skill_tools_among(names: Seq<Seq<char>>) -> Seq<Seq<char>>
    decreases names.len(),
{
    if names.len() == 0 {
        Seq::empty()
    } else if skill_tool_name(names.last()) {
        skill_tools_among(names.drop_last()).push(names.last())
    } else {
        skill_tools_among(names.drop_last())
    }
}

/// What a resync of the skill tool does to the registry: the skill tools
/// to unregister, and the skills the re-registered `load_skill` tool
/// offers; it is registered only where that list is not empty.
#[derive(Debug)]
pub struct SkillResync {
    pub stale: Vec<String>,
    pub offered: Vec<Skill>,
}

/// Plans a resync from the registered tool names: every skill tool goes,
/// and the enabled skills, in order, are offered by a new `load_skill`.
pub fn plan_skill_resync(registered: &Vec<String>, skills: &Vec<Skill>, enabled: &Vec<String>) -> (r: SkillResync)
    ensures
        crate::text::views(r.stale@) == skill_tools_among(crate::text::views(registered@)),
        r.offered@.len() == enabled_skills_of(skills@, name_set(enabled@)).len(),
        forall|i: int| 0 <= i < r.offered@.len() ==> same_skill(#[trigger] r.offered@[i], enabled_skills_of(skills@, name_set(enabled@))[i]),
{
    let ghost all = crate::text::views(registered@);
    let mut stale: Vec<String> = Vec::new();
    let mut i: usize = 0;
    while i < registered.len()
        invariant
            i <= registered@.len(),
            all == crate::text::views(registered@),
            crate::text::views(stale@) == skill_tools_among(all.take(i as int)),
        decreases registered.len() - i,
    {
        proof {
            assert(all.take(i + 1).drop_last() =~= all.take(i as int));
            assert(all.take(i + 1).last() == registered@[i as int]@);
        }
        if is_skill_tool(registered[i].as_str()) {
            let ghost before = stale@;
            stale.push(registered[i].clone());
            proof {
                assert(crate::text::views(stale@) =~= crate::text::views(before).push(registered@[i as int]@));
            }
        }
        i = i + 1;
    }
    proof {
        assert(all.take(i as int) =~= all);
    }
    SkillResync { stale, offered: enabled_skills(skills, enabled) }
}

} // verus!
