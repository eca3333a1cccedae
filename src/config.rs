//! Per-guild configuration: scripts, their links to contexts, guild metadata
//! and the guilds the bot has joined, held in memory.
//!
//! Conflicts: creating a script whose name the guild already uses fails with
//! `ScriptAlreadyExists`; linking a script to a context it is already linked
//! to succeeds and stores nothing new. Deleting a missing script fails with
//! `ScriptNotFound`; deleting a script removes its links too.
use vstd::prelude::*;

verus! {

/// The errors of the configuration store.
#[derive(PartialEq, Eq, Structural, Clone, Copy, Debug)]
pub enum ConfigStoreError {
    ScriptNotFound,
    LinkNotFound,
    ScriptAlreadyExists,
    /// Every script id has been handed out.
    IdsExhausted,
}

/// A script of a guild: its source and what it compiled to.
pub struct Script {
    pub id: u64,
    pub name: String,
    pub original_source: String,
    pub compiled_js: String,
}

/// A script to create; the store assigns its id.
pub struct CreateScript {
    pub name: String,
    pub original_source: String,
    pub compiled_js: String,
}

/// Where a script is active: the whole guild, one channel or one role.
#[derive(PartialEq, Eq, Structural, Clone, Copy, Debug)]
pub enum ScriptContext {
    Guild,
    Channel(u64),
    Role(u64),
}

/// A script, by name, bound to a context of its guild.
pub struct ScriptLink {
    pub script_name: String,
    pub context: ScriptContext,
}

/// Guild-wide settings; a guild without any has `error_channel_id` empty.
#[derive(Clone, Copy, Debug)]
pub struct GuildMetaConfig {
    pub guild_id: u64,
    pub error_channel_id: Option<u64>,
}

/// A guild that the bot is a member of.
pub struct JoinedGuild {
    pub id: u64,
    pub name: String,
    pub icon: String,
    pub owner_id: u64,
}

impl Script {
    pub fn copy(&self) -> (r: Script)
        ensures
            r == *self,
    {
        Script {
            id: self.id,
            name: self.name.clone(),
            original_source: self.original_source.clone(),
            compiled_js: self.compiled_js.clone(),
        }
    }
}

impl ScriptLink {
    pub fn copy(&self) -> (r: ScriptLink)
        ensures
            r == *self,
    {
        ScriptLink { script_name: self.script_name.clone(), context: self.context }
    }
}

impl JoinedGuild {
    pub fn copy(&self) -> (r: JoinedGuild)
        ensures
            r == *self,
    {
        JoinedGuild { id: self.id, name: self.name.clone(), icon: self.icon.clone(), owner_id: self.owner_id }
    }
}

/// What the store holds. Scripts and links are kept with their guild id.
pub struct ConfigModel {
    pub scripts: Seq<(u64, Script)>,
    pub links: Seq<(u64, ScriptLink)>,
    pub metas: Seq<GuildMetaConfig>,
    pub joined: Seq<JoinedGuild>,
    pub next_id: u64,
}

pub open spec fn script_has_key(e: (u64, Script), guild_id: u64, name: Seq<char>) -> bool {
    e.0 == guild_id && e.1.name@ == name
}

pub open spec fn link_has_key(e: (u64, ScriptLink), guild_id: u64, name: Seq<char>, ctx: ScriptContext) -> bool {
    e.0 == guild_id && e.1.script_name@ == name && e.1.context == ctx
}

pub open spec fn links_script(e: (u64, ScriptLink), guild_id: u64, name: Seq<char>) -> bool {
    e.0 == guild_id && e.1.script_name@ == name
}

pub open spec fn has_script_in(scripts: Seq<(u64, Script)>, guild_id: u64, name: Seq<char>) -> bool {
    exists|i: int| 0 <= i < scripts.len() && #[trigger] script_has_key(scripts[i], guild_id, name)
}

pub open spec fn has_link_in(links: Seq<(u64, ScriptLink)>, guild_id: u64, name: Seq<char>, ctx: ScriptContext) -> bool {
    exists|i: int| 0 <= i < links.len() && #[trigger] link_has_key(links[i], guild_id, name, ctx)
}

/// The scripts of a guild, in the store's order.
pub open spec fn guild_scripts(scripts: Seq<(u64, Script)>, guild_id: u64) -> Seq<Script>
    decreases scripts.len(),
{
    if scripts.len() == 0 {
        Seq::empty()
    } else {
        let rest = guild_scripts(scripts.drop_last(), guild_id);
        if scripts.last().0 == guild_id {
            rest.push(scripts.last().1)
        } else {
            rest
        }
    }
}

/// The scripts of a guild that are linked to `ctx`, in the store's order.
pub open spec fn context_scripts(
    scripts: Seq<(u64, Script)>,
    links: Seq<(u64, ScriptLink)>,
    guild_id: u64,
    ctx: ScriptContext,
) -> Seq<Script>
    decreases scripts.len(),
{
    if scripts.len() == 0 {
        Seq::empty()
    } else {
        let rest = context_scripts(scripts.drop_last(), links, guild_id, ctx);
        let e = scripts.last();
        if e.0 == guild_id && has_link_in(links, guild_id, e.1.name@, ctx) {
            rest.push(e.1)
        } else {
            rest
        }
    }
}

/// The links of one script of a guild.
pub open spec fn script_links(links: Seq<(u64, ScriptLink)>, guild_id: u64, name: Seq<char>) -> Seq<ScriptLink>
    decreases links.len(),
{
    if links.len() == 0 {
        Seq::empty()
    } else {
        let rest = script_links(links.drop_last(), guild_id, name);
        if links_script(links.last(), guild_id, name) {
            rest.push(links.last().1)
        } else {
            rest
        }
    }
}

/// The links of a guild.
pub open spec fn guild_links(links: Seq<(u64, ScriptLink)>, guild_id: u64) -> Seq<ScriptLink>
    decreases links.len(),
{
    if links.len() == 0 {
        Seq::empty()
    } else {
        let rest = guild_links(links.drop_last(), guild_id);
        if links.last().0 == guild_id {
            rest.push(links.last().1)
        } else {
            rest
        }
    }
}

/// Holds of the links that do not belong to this script.
pub open spec fn not_linking(guild_id: u64, name: Seq<char>) -> spec_fn((u64, ScriptLink)) -> bool {
    |e: (u64, ScriptLink)| !links_script(e, guild_id, name)
}

/// Holds of the links other than this one.
pub open spec fn other_link(guild_id: u64, name: Seq<char>, ctx: ScriptContext) -> spec_fn((u64, ScriptLink)) -> bool {
    |e: (u64, ScriptLink)| !link_has_key(e, guild_id, name, ctx)
}

/// The links kept by `remove_links`: those of other scripts, or, given a
/// context, all but that one link.
pub open spec fn kept_links(guild_id: u64, name: Seq<char>, ctx: Option<ScriptContext>) -> spec_fn((u64, ScriptLink)) -> bool {
    match ctx {
        None => not_linking(guild_id, name),
        Some(c) => other_link(guild_id, name, c),
    }
}

proof fn lemma_filter_step<A>(s: Seq<A>, p: spec_fn(A) -> bool, i: int)
    requires
        0 <= i < s.len(),
    ensures
        s.take(i + 1).filter(p) == if p(s[i]) {
            s.take(i).filter(p).push(s[i])
        } else {
            s.take(i).filter(p)
        },
{
    reveal(Seq::filter);
    assert(s.take(i + 1).drop_last() =~= s.take(i));
}

proof fn lemma_filter_members<A>(s: Seq<A>, p: spec_fn(A) -> bool)
    ensures
        forall|k: int| 0 <= k < s.filter(p).len() ==> s.contains(#[trigger] s.filter(p)[k]) && p(s.filter(p)[k]),
    decreases s.len(),
{
    reveal(Seq::filter);
    if s.len() > 0 {
        lemma_filter_members(s.drop_last(), p);
        let f = s.filter(p);
        assert forall|k: int| 0 <= k < f.len() implies s.contains(#[trigger] f[k]) && p(f[k]) by {
            let sub = s.drop_last().filter(p);
            if k < sub.len() {
                assert(f[k] == sub[k]);
                let j = choose|j: int| 0 <= j < s.drop_last().len() && s.drop_last()[j] == sub[k];
                assert(s[j] == f[k]);
            } else {
                assert(f[k] == s.last());
                assert(s[s.len() - 1] == f[k]);
            }
        }
    }
}

pub open spec fn links_distinct(links: Seq<(u64, ScriptLink)>) -> bool {
    forall|i: int, j: int| 0 <= i < j < links.len() ==>
        !link_has_key(links[i], links[j].0, links[j].1.script_name@, links[j].1.context)
}

proof fn lemma_filter_links_distinct(links: Seq<(u64, ScriptLink)>, p: spec_fn((u64, ScriptLink)) -> bool)
    requires
        links_distinct(links),
    ensures
        links_distinct(links.filter(p)),
    decreases links.len(),
{
    reveal(Seq::filter);
    if links.len() > 0 {
        let d = links.drop_last();
        assert(links_distinct(d));
        lemma_filter_links_distinct(d, p);
        lemma_filter_members(d, p);
        let f = links.filter(p);
        let sub = d.filter(p);
        assert forall|i: int, j: int| 0 <= i < j < f.len() implies
            !link_has_key(f[i], f[j].0, f[j].1.script_name@, f[j].1.context) by {
            if j < sub.len() {
                assert(f[i] == sub[i] && f[j] == sub[j]);
            } else {
                assert(f[i] == sub[i]);
                assert(d.contains(sub[i]));
                let m = choose|m: int| 0 <= m < d.len() && d[m] == sub[i];
                assert(links[m] == f[i]);
                assert(f[j] == links[links.len() - 1]);
            }
        }
    }
}

proof fn lemma_has_script_push(scripts: Seq<(u64, Script)>, e: (u64, Script), guild_id: u64, name: Seq<char>)
    requires
        has_script_in(scripts, guild_id, name),
    ensures
        has_script_in(scripts.push(e), guild_id, name),
{
    let i = choose|i: int| 0 <= i < scripts.len() && #[trigger] script_has_key(scripts[i], guild_id, name);
    assert(script_has_key(scripts.push(e)[i], guild_id, name));
}

/// The store once `link` is stored for the guild; a link that is there already is not stored again.
pub open spec fn with_link(m: ConfigModel, guild_id: u64, link: ScriptLink) -> ConfigModel {
    if m.has_link(guild_id, link.script_name@, link.context) {
        m
    } else {
        ConfigModel { links: m.links.push((guild_id, link)), ..m }
    }
}

/// The store once the link of the guild's script `name` to `ctx` is removed.
pub open spec fn without_link(m: ConfigModel, guild_id: u64, name: Seq<char>, ctx: ScriptContext) -> ConfigModel {
    ConfigModel { links: m.links.filter(other_link(guild_id, name, ctx)), ..m }
}

/// The scripts that `list_context_scripts` lists for the guild and context.
pub open spec fn listed_for(m: ConfigModel, guild_id: u64, ctx: ScriptContext) -> Seq<Script> {
    context_scripts(m.scripts, m.links, guild_id, ctx)
}

/// The guilds of `joined` whose ids are in `ids`, in the order of `ids`.
pub open spec fn joined_among(joined: Seq<JoinedGuild>, ids: Seq<u64>) -> Seq<JoinedGuild>
    decreases ids.len(),
{
    if ids.len() == 0 {
        Seq::empty()
    } else {
        let rest = joined_among(joined, ids.drop_last());
        let id = ids.last();
        if exists|i: int| 0 <= i < joined.len() && #[trigger] joined[i].id == id {
            let i = choose|i: int| 0 <= i < joined.len() && #[trigger] joined[i].id == id;
            rest.push(joined[i])
        } else {
            rest
        }
    }
}

/// `joined` with `guild` in place of the record of its id, or added last.
pub open spec fn joined_upserted(joined: Seq<JoinedGuild>, guild: JoinedGuild) -> Seq<JoinedGuild> {
    if exists|i: int| 0 <= i < joined.len() && #[trigger] joined[i].id == guild.id {
        let i = choose|i: int| 0 <= i < joined.len() && #[trigger] joined[i].id == guild.id;
        joined.update(i, guild)
    } else {
        joined.push(guild)
    }
}

/// `joined` without the record of `id`, if there is one.
pub open spec fn joined_without(joined: Seq<JoinedGuild>, id: u64) -> Seq<JoinedGuild> {
    if exists|i: int| 0 <= i < joined.len() && #[trigger] joined[i].id == id {
        let i = choose|i: int| 0 <= i < joined.len() && #[trigger] joined[i].id == id;
        joined.remove(i)
    } else {
        joined
    }
}

impl GuildMetaConfig {
    /// The settings of a guild that has none stored.
    pub open spec fn empty(guild_id: u64) -> GuildMetaConfig {
        GuildMetaConfig { guild_id, error_channel_id: None }
    }

    pub fn new_empty(guild_id: u64) -> (r: GuildMetaConfig)
        ensures
            r == GuildMetaConfig::empty(guild_id),
    {
        GuildMetaConfig { guild_id, error_channel_id: None }
    }
}

impl ConfigModel {
    pub open spec fn has_script(self, guild_id: u64, name: Seq<char>) -> bool {
        has_script_in(self.scripts, guild_id, name)
    }

    pub open spec fn has_link(self, guild_id: u64, name: Seq<char>, ctx: ScriptContext) -> bool {
        has_link_in(self.links, guild_id, name, ctx)
    }

    pub open spec fn has_meta(self, guild_id: u64) -> bool {
        exists|i: int| 0 <= i < self.metas.len() && #[trigger] self.metas[i].guild_id == guild_id
    }

    pub open spec fn has_joined(self, id: u64) -> bool {
        exists|i: int| 0 <= i < self.joined.len() && #[trigger] self.joined[i].id == id
    }

    /// Keys are unique, ids are unique and below `next_id`, and every link
    /// names a script of its guild.
    pub open spec fn wf(self) -> bool {
        &&& forall|i: int, j: int| 0 <= i < j < self.scripts.len() ==>
            !script_has_key(self.scripts[i], self.scripts[j].0, self.scripts[j].1.name@)
        &&& forall|i: int| 0 <= i < self.scripts.len() ==> #[trigger] self.scripts[i].1.id < self.next_id
        &&& forall|i: int, j: int| 0 <= i < j < self.scripts.len() ==> self.scripts[i].1.id != self.scripts[j].1.id
        &&& links_distinct(self.links)
        &&& forall|i: int| 0 <= i < self.links.len() ==>
            #[trigger] has_script_in(self.scripts, self.links[i].0, self.links[i].1.script_name@)
        &&& forall|i: int, j: int| 0 <= i < j < self.metas.len() ==> self.metas[i].guild_id != self.metas[j].guild_id
        &&& forall|i: int, j: int| 0 <= i < j < self.joined.len() ==> self.joined[i].id != self.joined[j].id
    }
}

/// The configuration of every guild, held in memory.
pub struct ConfigStore {
    scripts: Vec<(u64, Script)>,
    links: Vec<(u64, ScriptLink)>,
    metas: Vec<GuildMetaConfig>,
    joined: Vec<JoinedGuild>,
    next_id: u64,
}

impl View for ConfigStore {
    type V = ConfigModel;

    closed spec fn view(&self) -> ConfigModel {
        ConfigModel {
            scripts: self.scripts@,
            links: self.links@,
            metas: self.metas@,
            joined: self.joined@,
            next_id: self.next_id,
        }
    }
}

impl ConfigStore {
    pub fn new() -> (r: ConfigStore)
        ensures
            r@.wf(),
            r@.scripts.len() == 0,
            r@.links.len() == 0,
            r@.metas.len() == 0,
            r@.joined.len() == 0,
    {
        ConfigStore { scripts: Vec::new(), links: Vec::new(), metas: Vec::new(), joined: Vec::new(), next_id: 1 }
    }

    fn find_script(&self, guild_id: u64, name: &String) -> (r: Option<usize>)
        ensures
            match r {
                Some(i) => i < self@.scripts.len() && script_has_key(self@.scripts[i as int], guild_id, name@),
                None => !self@.has_script(guild_id, name@),
            },
    {
        let mut i: usize = 0;
        while i < self.scripts.len()
            invariant
                i <= self.scripts@.len(),
                forall|j: int| 0 <= j < i ==> !script_has_key(self.scripts@[j], guild_id, name@),
            decreases self.scripts@.len() - i,
        {
            if self.scripts[i].0 == guild_id && self.scripts[i].1.name == *name {
                return Some(i);
            }
            i = i + 1;
        }
        None
    }

    /// The script of the guild with this name.
    pub fn get_script(&self, guild_id: u64, script_name: String) -> (r: Result<Script, ConfigStoreError>)
        requires
            self@.wf(),
        ensures
            r is Ok <==> self@.has_script(guild_id, script_name@),
            r matches Ok(s) ==> s.name@ == script_name@ && self@.scripts.contains((guild_id, s)),
            r matches Err(e) ==> e == ConfigStoreError::ScriptNotFound,
    {
        match self.find_script(guild_id, &script_name) {
            Some(i) => {
                let s = self.scripts[i].1.copy();
                assert(self@.scripts[i as int] == (guild_id, s));
                Ok(s)
            },
            None => Err(ConfigStoreError::ScriptNotFound),
        }
    }
}

} // verus!
verus! {

impl ConfigStore {
    /// Creates a script of the guild under the next free id. Fails, changing
    /// nothing, when the guild has a script of that name already.
    pub fn create_script(&mut self, guild_id: u64, script: CreateScript) -> (r: Result<Script, ConfigStoreError>)
        requires
            old(self)@.wf(),
        ensures
            final(self)@.wf(),
            old(self)@.has_script(guild_id, script.name@) ==> r == Err::<Script, ConfigStoreError>(ConfigStoreError::ScriptAlreadyExists)
                && final(self)@ == old(self)@,
            !old(self)@.has_script(guild_id, script.name@) && old(self)@.next_id == u64::MAX ==> r == Err::<Script, ConfigStoreError>(
                ConfigStoreError::IdsExhausted,
            ) && final(self)@ == old(self)@,
            !old(self)@.has_script(guild_id, script.name@) && old(self)@.next_id < u64::MAX ==> {
                &&& r matches Ok(s)
                &&& s == (Script {
                    id: old(self)@.next_id,
                    name: script.name,
                    original_source: script.original_source,
                    compiled_js: script.compiled_js,
                })
                &&& final(self)@ == (ConfigModel {
                    scripts: old(self)@.scripts.push((guild_id, s)),
                    next_id: (old(self)@.next_id + 1) as u64,
                    ..old(self)@
                })
            },
    {
        if self.find_script(guild_id, &script.name).is_some() {
            return Err(ConfigStoreError::ScriptAlreadyExists);
        }
        if self.next_id == u64::MAX {
            return Err(ConfigStoreError::IdsExhausted);
        }
        let s = Script {
            id: self.next_id,
            name: script.name,
            original_source: script.original_source,
            compiled_js: script.compiled_js,
        };
        let r = s.copy();
        let ghost before = self@;
        self.scripts.push((guild_id, s));
        self.next_id = self.next_id + 1;
        proof {
            assert forall|i: int| 0 <= i < self@.links.len() implies #[trigger] has_script_in(
                self@.scripts,
                self@.links[i].0,
                self@.links[i].1.script_name@,
            ) by {
                lemma_has_script_push(before.scripts, (guild_id, r), before.links[i].0, before.links[i].1.script_name@);
            }
            let ss = self@.scripts;
            assert forall|a: int, b: int| 0 <= a < b < ss.len() implies !script_has_key(ss[a], ss[b].0, ss[b].1.name@) by {
                if b < before.scripts.len() {
                    assert(ss[a] == before.scripts[a] && ss[b] == before.scripts[b]);
                } else {
                    assert(ss[a] == before.scripts[a]);
                    assert(!script_has_key(before.scripts[a], guild_id, r.name@));
                }
            }
            assert forall|a: int| 0 <= a < ss.len() implies #[trigger] ss[a].1.id < self@.next_id by {
                if a < before.scripts.len() {
                    assert(ss[a] == before.scripts[a]);
                }
            }
            assert forall|a: int, b: int| 0 <= a < b < ss.len() implies ss[a].1.id != ss[b].1.id by {
                if b < before.scripts.len() {
                    assert(ss[a] == before.scripts[a] && ss[b] == before.scripts[b]);
                } else {
                    assert(ss[a] == before.scripts[a]);
                }
            }
        }
        Ok(r)
    }

    /// Replaces the source and compiled output of the guild's script that has
    /// `script.name`; its id stays. Fails with `ScriptNotFound` when there is none.
    pub fn update_script(&mut self, guild_id: u64, script: Script) -> (r: Result<Script, ConfigStoreError>)
        requires
            old(self)@.wf(),
        ensures
            final(self)@.wf(),
            !old(self)@.has_script(guild_id, script.name@) ==> r == Err::<Script, ConfigStoreError>(ConfigStoreError::ScriptNotFound)
                && final(self)@ == old(self)@,
            old(self)@.has_script(guild_id, script.name@) ==> exists|i: int| {
                &&& 0 <= i < old(self)@.scripts.len()
                &&& script_has_key(old(self)@.scripts[i], guild_id, script.name@)
                &&& r == Ok::<Script, ConfigStoreError>(Script { id: old(self)@.scripts[i].1.id, ..script })
                &&& final(self)@ == (ConfigModel {
                    scripts: old(self)@.scripts.update(i, (guild_id, Script { id: old(self)@.scripts[i].1.id, ..script })),
                    ..old(self)@
                })
            },
    {
        match self.find_script(guild_id, &script.name) {
            None => Err(ConfigStoreError::ScriptNotFound),
            Some(i) => {
                let ghost before = self@;
                let s = Script {
                    id: self.scripts[i].1.id,
                    name: script.name,
                    original_source: script.original_source,
                    compiled_js: script.compiled_js,
                };
                let r = s.copy();
                self.scripts.set(i, (guild_id, s));
                proof {
                    assert forall|k: int| 0 <= k < self@.links.len() implies #[trigger] has_script_in(
                        self@.scripts,
                        self@.links[k].0,
                        self@.links[k].1.script_name@,
                    ) by {
                        assert(has_script_in(before.scripts, before.links[k].0, before.links[k].1.script_name@));
                        let j = choose|j: int| 0 <= j < before.scripts.len() && #[trigger] script_has_key(
                            before.scripts[j],
                            before.links[k].0,
                            before.links[k].1.script_name@,
                        );
                        assert(script_has_key(self@.scripts[j], before.links[k].0, before.links[k].1.script_name@));
                    }
                    let ss = self@.scripts;
                    assert forall|a: int, b: int| 0 <= a < b < ss.len() implies !script_has_key(ss[a], ss[b].0, ss[b].1.name@) by {
                        assert(!script_has_key(before.scripts[a], before.scripts[b].0, before.scripts[b].1.name@));
                    }
                    assert forall|a: int| 0 <= a < ss.len() implies #[trigger] ss[a].1.id < self@.next_id by {
                        assert(before.scripts[a].1.id < before.next_id);
                    }
                    assert forall|a: int, b: int| 0 <= a < b < ss.len() implies ss[a].1.id != ss[b].1.id by {
                        assert(before.scripts[a].1.id != before.scripts[b].1.id);
                    }
                    assert(self@ == (ConfigModel { scripts: before.scripts.update(i as int, (guild_id, r)), ..before }));
                }
                Ok(r)
            },
        }
    }

    fn find_link(&self, guild_id: u64, name: &String, ctx: ScriptContext) -> (r: Option<usize>)
        ensures
            match r {
                Some(i) => i < self@.links.len() && link_has_key(self@.links[i as int], guild_id, name@, ctx),
                None => !self@.has_link(guild_id, name@, ctx),
            },
    {
        let mut i: usize = 0;
        while i < self.links.len()
            invariant
                i <= self.links@.len(),
                forall|j: int| 0 <= j < i ==> !link_has_key(self.links@[j], guild_id, name@, ctx),
            decreases self.links@.len() - i,
        {
            if self.links[i].0 == guild_id && self.links[i].1.script_name == *name && self.links[i].1.context == ctx {
                return Some(i);
            }
            i = i + 1;
        }
        None
    }

    /// Keeps only the links that `kept_links` holds of; returns how many went.
    fn remove_links(&mut self, guild_id: u64, name: &String, ctx: Option<ScriptContext>) -> (r: u64)
        ensures
            final(self)@ == (ConfigModel { links: old(self)@.links.filter(kept_links(guild_id, name@, ctx)), ..old(self)@ }),
            r == old(self)@.links.len() - final(self)@.links.len(),
    {
        let ghost p = kept_links(guild_id, name@, ctx);
        let mut kept: Vec<(u64, ScriptLink)> = Vec::new();
        let mut i: usize = 0;
        while i < self.links.len()
            invariant
                i <= self.links@.len(),
                p == kept_links(guild_id, name@, ctx),
                kept@ == self.links@.take(i as int).filter(p),
            decreases self.links@.len() - i,
        {
            proof {
                lemma_filter_step(self.links@, p, i as int);
            }
            let e = &self.links[i];
            let drop = e.0 == guild_id && e.1.script_name == *name && match ctx {
                None => true,
                Some(c) => e.1.context == c,
            };
            if !drop {
                kept.push((e.0, e.1.copy()));
            }
            i = i + 1;
        }
        proof {
            assert(self.links@.take(self.links@.len() as int) =~= self.links@);
            self.links@.lemma_filter_len(p);
        }
        let removed = (self.links.len() - kept.len()) as u64;
        self.links = kept;
        removed
    }

    /// Removes every link of the guild's script `script_name`; returns how many there were.
    pub fn unlink_all_script(&mut self, guild_id: u64, script_name: String) -> (r: u64)
        requires
            old(self)@.wf(),
        ensures
            final(self)@.wf(),
            final(self)@ == (ConfigModel { links: old(self)@.links.filter(not_linking(guild_id, script_name@)), ..old(self)@ }),
            r == old(self)@.links.len() - final(self)@.links.len(),
    {
        let ghost before = self@;
        let r = self.remove_links(guild_id, &script_name, None);
        proof {
            self.lemma_filtered_links_wf(before, kept_links(guild_id, script_name@, None));
        }
        r
    }

    proof fn lemma_filtered_links_wf(&self, before: ConfigModel, p: spec_fn((u64, ScriptLink)) -> bool)
        requires
            before.wf(),
            self@ == (ConfigModel { links: before.links.filter(p), ..before }),
        ensures
            self@.wf(),
    {
        lemma_filter_members(before.links, p);
        lemma_filter_links_distinct(before.links, p);
        let f = before.links.filter(p);
        assert forall|k: int| 0 <= k < f.len() implies #[trigger] has_script_in(before.scripts, f[k].0, f[k].1.script_name@) by {
            assert(before.links.contains(f[k]));
            let j = choose|j: int| 0 <= j < before.links.len() && before.links[j] == f[k];
            assert(has_script_in(before.scripts, before.links[j].0, before.links[j].1.script_name@));
        }
    }

    /// Deletes the guild's script `script_name` and all its links. Fails with
    /// `ScriptNotFound`, changing nothing, when there is none.
    pub fn del_script(&mut self, guild_id: u64, script_name: String) -> (r: Result<(), ConfigStoreError>)
        requires
            old(self)@.wf(),
        ensures
            final(self)@.wf(),
            !old(self)@.has_script(guild_id, script_name@) ==> r == Err::<(), ConfigStoreError>(ConfigStoreError::ScriptNotFound)
                && final(self)@ == old(self)@,
            old(self)@.has_script(guild_id, script_name@) ==> r is Ok && exists|i: int| {
                &&& 0 <= i < old(self)@.scripts.len()
                &&& script_has_key(old(self)@.scripts[i], guild_id, script_name@)
                &&& final(self)@ == (ConfigModel {
                    scripts: old(self)@.scripts.remove(i),
                    links: old(self)@.links.filter(not_linking(guild_id, script_name@)),
                    ..old(self)@
                })
            },
    {
        match self.find_script(guild_id, &script_name) {
            None => Err(ConfigStoreError::ScriptNotFound),
            Some(i) => {
                let ghost before = self@;
                let ghost p = not_linking(guild_id, script_name@);
                self.remove_links(guild_id, &script_name, None);
                self.scripts.remove(i);
                proof {
                    lemma_filter_members(before.links, p);
                    lemma_filter_links_distinct(before.links, p);
                    let f = before.links.filter(p);
                    let ss = self@.scripts;
                    assert forall|k: int| 0 <= k < f.len() implies #[trigger] has_script_in(ss, f[k].0, f[k].1.script_name@) by {
                        assert(before.links.contains(f[k]));
                        let j = choose|j: int| 0 <= j < before.links.len() && before.links[j] == f[k];
                        assert(has_script_in(before.scripts, before.links[j].0, before.links[j].1.script_name@));
                        let m = choose|m: int| 0 <= m < before.scripts.len() && #[trigger] script_has_key(before.scripts[m], f[k].0, f[k].1.script_name@);
                        assert(p(f[k]));
                        assert(m != i);
                        if m < i {
                            assert(script_has_key(ss[m], f[k].0, f[k].1.script_name@));
                        } else {
                            assert(script_has_key(ss[m - 1], f[k].0, f[k].1.script_name@));
                        }
                    }
                    assert(self@ == (ConfigModel { scripts: before.scripts.remove(i as int), links: f, ..before }));
                }
                Ok(())
            },
        }
    }

    /// Links the guild's script `script_name` to `ctx`. Fails with
    /// `ScriptNotFound` when there is no such script; a link that exists
    /// already is returned as it is.
    pub fn link_script(&mut self, guild_id: u64, script_name: String, ctx: ScriptContext) -> (r: Result<ScriptLink, ConfigStoreError>)
        requires
            old(self)@.wf(),
        ensures
            final(self)@.wf(),
            !old(self)@.has_script(guild_id, script_name@) ==> r == Err::<ScriptLink, ConfigStoreError>(ConfigStoreError::ScriptNotFound)
                && final(self)@ == old(self)@,
            old(self)@.has_script(guild_id, script_name@) ==> r == Ok::<ScriptLink, ConfigStoreError>(ScriptLink { script_name, context: ctx }),
            old(self)@.has_script(guild_id, script_name@) ==> final(self)@ == with_link(
                old(self)@,
                guild_id,
                ScriptLink { script_name, context: ctx },
            ),
    {
        let found = self.find_script(guild_id, &script_name);
        if found.is_none() {
            return Err(ConfigStoreError::ScriptNotFound);
        }
        assert(script_has_key(self@.scripts[found->Some_0 as int], guild_id, script_name@));
        let link = ScriptLink { script_name, context: ctx };
        if self.find_link(guild_id, &link.script_name, ctx).is_some() {
            return Ok(link);
        }
        let r = link.copy();
        let ghost before = self@;
        self.links.push((guild_id, link));
        proof {
            assert(self@.joined == before.joined && self@.metas == before.metas && self@.scripts == before.scripts);
            let ls = self@.links;
            let n = before.links.len() as int;
            assert forall|a: int, b: int| 0 <= a < b < ls.len() implies
                !link_has_key(ls[a], ls[b].0, ls[b].1.script_name@, ls[b].1.context) by {
                assert(ls[a] == before.links[a]);
                if b < n {
                    assert(ls[b] == before.links[b]);
                }
            }
            assert forall|a: int| 0 <= a < ls.len() implies #[trigger] has_script_in(self@.scripts, ls[a].0, ls[a].1.script_name@) by {
                if a < n {
                    assert(ls[a] == before.links[a]);
                }
            }
        }
        Ok(r)
    }

    /// Removes the link of the guild's script `script_name` to `ctx`. Fails
    /// with `LinkNotFound`, changing nothing, when there is none.
    pub fn unlink_script(&mut self, guild_id: u64, script_name: String, ctx: ScriptContext) -> (r: Result<(), ConfigStoreError>)
        requires
            old(self)@.wf(),
        ensures
            final(self)@.wf(),
            !old(self)@.has_link(guild_id, script_name@, ctx) ==> r == Err::<(), ConfigStoreError>(ConfigStoreError::LinkNotFound)
                && final(self)@ == old(self)@,
            old(self)@.has_link(guild_id, script_name@, ctx) ==> r is Ok && final(self)@ == without_link(
                old(self)@,
                guild_id,
                script_name@,
                ctx,
            ),
    {
        if self.find_link(guild_id, &script_name, ctx).is_none() {
            return Err(ConfigStoreError::LinkNotFound);
        }
        let ghost before = self@;
        self.remove_links(guild_id, &script_name, Some(ctx));
        proof {
            self.lemma_filtered_links_wf(before, kept_links(guild_id, script_name@, Some(ctx)));
        }
        Ok(())
    }

    /// The guild's scripts.
    pub fn list_scripts(&self, guild_id: u64) -> (r: Vec<Script>)
        ensures
            r@ == guild_scripts(self@.scripts, guild_id),
    {
        let mut out: Vec<Script> = Vec::new();
        let mut i: usize = 0;
        while i < self.scripts.len()
            invariant
                i <= self.scripts@.len(),
                out@ == guild_scripts(self.scripts@.take(i as int), guild_id),
            decreases self.scripts@.len() - i,
        {
            assert(self.scripts@.take(i + 1).drop_last() =~= self.scripts@.take(i as int));
            if self.scripts[i].0 == guild_id {
                out.push(self.scripts[i].1.copy());
            }
            i = i + 1;
        }
        assert(self.scripts@.take(self.scripts@.len() as int) =~= self.scripts@);
        out
    }

    /// The links of the guild's script `script_name`.
    pub fn list_script_links(&self, guild_id: u64, script_name: String) -> (r: Vec<ScriptLink>)
        ensures
            r@ == script_links(self@.links, guild_id, script_name@),
    {
        let mut out: Vec<ScriptLink> = Vec::new();
        let mut i: usize = 0;
        while i < self.links.len()
            invariant
                i <= self.links@.len(),
                out@ == script_links(self.links@.take(i as int), guild_id, script_name@),
            decreases self.links@.len() - i,
        {
            assert(self.links@.take(i + 1).drop_last() =~= self.links@.take(i as int));
            if self.links[i].0 == guild_id && self.links[i].1.script_name == script_name {
                out.push(self.links[i].1.copy());
            }
            i = i + 1;
        }
        assert(self.links@.take(self.links@.len() as int) =~= self.links@);
        out
    }

    /// All links of the guild.
    pub fn list_links(&self, guild_id: u64) -> (r: Vec<ScriptLink>)
        ensures
            r@ == guild_links(self@.links, guild_id),
    {
        let mut out: Vec<ScriptLink> = Vec::new();
        let mut i: usize = 0;
        while i < self.links.len()
            invariant
                i <= self.links@.len(),
                out@ == guild_links(self.links@.take(i as int), guild_id),
            decreases self.links@.len() - i,
        {
            assert(self.links@.take(i + 1).drop_last() =~= self.links@.take(i as int));
            if self.links[i].0 == guild_id {
                out.push(self.links[i].1.copy());
            }
            i = i + 1;
        }
        assert(self.links@.take(self.links@.len() as int) =~= self.links@);
        out
    }

    /// The guild's scripts that are linked to `ctx`: those to run for an
    /// event in that scope.
    pub fn list_context_scripts(&self, guild_id: u64, ctx: ScriptContext) -> (r: Vec<Script>)
        ensures
            r@ == listed_for(self@, guild_id, ctx),
    {
        let mut out: Vec<Script> = Vec::new();
        let mut i: usize = 0;
        while i < self.scripts.len()
            invariant
                i <= self.scripts@.len(),
                out@ == context_scripts(self.scripts@.take(i as int), self.links@, guild_id, ctx),
            decreases self.scripts@.len() - i,
        {
            assert(self.scripts@.take(i + 1).drop_last() =~= self.scripts@.take(i as int));
            if self.scripts[i].0 == guild_id && self.find_link(guild_id, &self.scripts[i].1.name, ctx).is_some() {
                out.push(self.scripts[i].1.copy());
            }
            i = i + 1;
        }
        assert(self.scripts@.take(self.scripts@.len() as int) =~= self.scripts@);
        out
    }

    fn find_meta(&self, guild_id: u64) -> (r: Option<usize>)
        ensures
            match r {
                Some(i) => i < self@.metas.len() && self@.metas[i as int].guild_id == guild_id,
                None => !self@.has_meta(guild_id),
            },
    {
        let mut i: usize = 0;
        while i < self.metas.len()
            invariant
                i <= self.metas@.len(),
                forall|j: int| 0 <= j < i ==> self.metas@[j].guild_id != guild_id,
            decreases self.metas@.len() - i,
        {
            if self.metas[i].guild_id == guild_id {
                return Some(i);
            }
            i = i + 1;
        }
        None
    }

    /// The guild's settings, if any were stored.
    pub fn get_guild_meta_config(&self, guild_id: u64) -> (r: Option<GuildMetaConfig>)
        requires
            self@.wf(),
        ensures
            r is Some <==> self@.has_meta(guild_id),
            r matches Some(c) ==> c.guild_id == guild_id && self@.metas.contains(c),
    {
        match self.find_meta(guild_id) {
            Some(i) => {
                let c = self.metas[i];
                assert(self@.metas[i as int] == c);
                Some(c)
            },
            None => None,
        }
    }

    /// The guild's settings, or the empty settings of the guild when none
    /// were stored.
    pub fn get_guild_meta_config_or_default(&self, guild_id: u64) -> (r: GuildMetaConfig)
        requires
            self@.wf(),
        ensures
            r.guild_id == guild_id,
            self@.has_meta(guild_id) ==> self@.metas.contains(r),
            !self@.has_meta(guild_id) ==> r == GuildMetaConfig::empty(guild_id),
    {
        match self.get_guild_meta_config(guild_id) {
            Some(conf) => conf,
            None => GuildMetaConfig::new_empty(guild_id),
        }
    }

    /// Stores `conf` as its guild's settings, replacing what was stored.
    pub fn update_guild_meta_config(&mut self, conf: &GuildMetaConfig) -> (r: GuildMetaConfig)
        requires
            old(self)@.wf(),
        ensures
            final(self)@.wf(),
            r == *conf,
            old(self)@.has_meta(conf.guild_id) ==> exists|i: int|
                0 <= i < old(self)@.metas.len() && old(self)@.metas[i].guild_id == conf.guild_id
                    && final(self)@ == (ConfigModel { metas: old(self)@.metas.update(i, *conf), ..old(self)@ }),
            !old(self)@.has_meta(conf.guild_id) ==> final(self)@ == (ConfigModel {
                metas: old(self)@.metas.push(*conf),
                ..old(self)@
            }),
    {
        let ghost before = self@;
        match self.find_meta(conf.guild_id) {
            Some(i) => {
                self.metas.set(i, *conf);
                assert(self@ == (ConfigModel { metas: before.metas.update(i as int, *conf), ..before }));
            },
            None => {
                self.metas.push(*conf);
            },
        }
        *conf
    }

    fn find_joined(&self, id: u64) -> (r: Option<usize>)
        ensures
            match r {
                Some(i) => i < self@.joined.len() && self@.joined[i as int].id == id,
                None => !self@.has_joined(id),
            },
    {
        let mut i: usize = 0;
        while i < self.joined.len()
            invariant
                i <= self.joined@.len(),
                forall|j: int| 0 <= j < i ==> self.joined@[j].id != id,
            decreases self.joined@.len() - i,
        {
            if self.joined[i].id == id {
                return Some(i);
            }
            i = i + 1;
        }
        None
    }

    /// Records that the bot is in `guild`, replacing the record of the same id.
    pub fn add_update_joined_guild(&mut self, guild: JoinedGuild) -> (r: JoinedGuild)
        requires
            old(self)@.wf(),
        ensures
            final(self)@.wf(),
            r == guild,
            final(self)@ == (ConfigModel { joined: joined_upserted(old(self)@.joined, guild), ..old(self)@ }),
    {
        let ghost before = self@;
        let r = guild.copy();
        match self.find_joined(guild.id) {
            Some(i) => {
                self.joined.set(i, guild);
                let ghost c = choose|c: int| 0 <= c < before.joined.len() && #[trigger] before.joined[c].id == r.id;
                assert(c == i);
                assert(self@ == (ConfigModel { joined: before.joined.update(i as int, r), ..before }));
            },
            None => {
                self.joined.push(guild);
            },
        }
        r
    }

    /// Forgets the guild `guild_id`; true when it was recorded.
    pub fn remove_joined_guild(&mut self, guild_id: u64) -> (r: bool)
        requires
            old(self)@.wf(),
        ensures
            final(self)@.wf(),
            r == old(self)@.has_joined(guild_id),
            !final(self)@.has_joined(guild_id),
            final(self)@ == (ConfigModel { joined: joined_without(old(self)@.joined, guild_id), ..old(self)@ }),
    {
        let ghost before = self@;
        match self.find_joined(guild_id) {
            Some(i) => {
                self.joined.remove(i);
                let ghost c = choose|c: int| 0 <= c < before.joined.len() && #[trigger] before.joined[c].id == guild_id;
                assert(c == i);
                assert(self@ == (ConfigModel { joined: before.joined.remove(i as int), ..before }));
                assert forall|k: int| 0 <= k < self@.joined.len() implies #[trigger] self@.joined[k].id != guild_id by {
                    if k < i {
                        assert(self@.joined[k] == before.joined[k]);
                    } else {
                        assert(self@.joined[k] == before.joined[k + 1]);
                    }
                }
                true
            },
            None => false,
        }
    }

    /// The recorded guilds among `ids`, in the order of `ids`; ids that are
    /// not recorded are left out.
    pub fn get_joined_guilds(&self, ids: &[u64]) -> (r: Vec<JoinedGuild>)
        requires
            self@.wf(),
        ensures
            r@ == joined_among(self@.joined, ids@),
    {
        let mut out: Vec<JoinedGuild> = Vec::new();
        let mut i: usize = 0;
        while i < ids.len()
            invariant
                self@.wf(),
                i <= ids@.len(),
                out@ == joined_among(self@.joined, ids@.take(i as int)),
            decreases ids@.len() - i,
        {
            assert(ids@.take(i + 1).drop_last() =~= ids@.take(i as int));
            match self.find_joined(ids[i]) {
                Some(k) => {
                    let g = self.joined[k].copy();
                    assert(g == self@.joined[k as int]);
                    out.push(g);
                },
                None => {},
            }
            i = i + 1;
        }
        assert(ids@.take(ids@.len() as int) =~= ids@);
        out
    }
}

} // verus!

verus! {

/// After a script is created, its guild has a script of that name; that
/// script is the one created; and creating the name again is refused.
pub proof fn lemma_created_script_found(before: ConfigModel, guild_id: u64, script: Script)
    requires
        before.wf(),
        !before.has_script(guild_id, script.name@),
        before.next_id < u64::MAX,
        script.id == before.next_id,
    ensures
        ({
            let after = ConfigModel {
                scripts: before.scripts.push((guild_id, script)),
                next_id: (before.next_id + 1) as u64,
                ..before
            };
            &&& after.has_script(guild_id, script.name@)
            &&& forall|s: Script| after.scripts.contains((guild_id, s)) && s.name@ == script.name@ ==> s == script
        }),
{
    let after = ConfigModel { scripts: before.scripts.push((guild_id, script)), next_id: (before.next_id + 1) as u64, ..before };
    let n = before.scripts.len() as int;
    assert(script_has_key(after.scripts[n], guild_id, script.name@));
    assert forall|s: Script| after.scripts.contains((guild_id, s)) && s.name@ == script.name@ implies s == script by {
        let k = choose|k: int| 0 <= k < after.scripts.len() && after.scripts[k] == (guild_id, s);
        if k < n {
            assert(script_has_key(before.scripts[k], guild_id, script.name@));
        }
    }
}

proof fn lemma_script_links_empty(links: Seq<(u64, ScriptLink)>, guild_id: u64, name: Seq<char>)
    requires
        forall|i: int| 0 <= i < links.len() ==> !links_script(#[trigger] links[i], guild_id, name),
    ensures
        script_links(links, guild_id, name) == Seq::<ScriptLink>::empty(),
    decreases links.len(),
{
    if links.len() > 0 {
        let d = links.drop_last();
        assert forall|i: int| 0 <= i < d.len() implies !links_script(#[trigger] d[i], guild_id, name) by {
            assert(d[i] == links[i]);
        }
        lemma_script_links_empty(d, guild_id, name);
        assert(!links_script(links[links.len() - 1], guild_id, name));
    }
}

/// Once a script's links are removed (as deleting the script does), the
/// script has no links left.
pub proof fn lemma_deleted_script_has_no_links(links: Seq<(u64, ScriptLink)>, guild_id: u64, name: Seq<char>)
    ensures
        script_links(links.filter(not_linking(guild_id, name)), guild_id, name) == Seq::<ScriptLink>::empty(),
{
    let p = not_linking(guild_id, name);
    let f = links.filter(p);
    lemma_filter_members(links, p);
    assert forall|i: int| 0 <= i < f.len() implies !links_script(#[trigger] f[i], guild_id, name) by {
        assert(p(f[i]));
    }
    lemma_script_links_empty(f, guild_id, name);
}

proof fn lemma_context_scripts_linked(scripts: Seq<(u64, Script)>, links: Seq<(u64, ScriptLink)>, guild_id: u64, ctx: ScriptContext)
    ensures
        forall|k: int| 0 <= k < context_scripts(scripts, links, guild_id, ctx).len() ==>
            has_link_in(links, guild_id, (#[trigger] context_scripts(scripts, links, guild_id, ctx)[k]).name@, ctx),
    decreases scripts.len(),
{
    if scripts.len() > 0 {
        let d = scripts.drop_last();
        lemma_context_scripts_linked(d, links, guild_id, ctx);
        let r = context_scripts(scripts, links, guild_id, ctx);
        let sub = context_scripts(d, links, guild_id, ctx);
        assert forall|k: int| 0 <= k < r.len() implies has_link_in(links, guild_id, (#[trigger] r[k]).name@, ctx) by {
            if k < sub.len() {
                assert(r[k] == sub[k]);
            }
        }
    }
}

proof fn lemma_context_scripts_has(scripts: Seq<(u64, Script)>, links: Seq<(u64, ScriptLink)>, guild_id: u64, ctx: ScriptContext, i: int)
    requires
        0 <= i < scripts.len(),
        scripts[i].0 == guild_id,
        has_link_in(links, guild_id, scripts[i].1.name@, ctx),
    ensures
        context_scripts(scripts, links, guild_id, ctx).contains(scripts[i].1),
    decreases scripts.len(),
{
    let r = context_scripts(scripts, links, guild_id, ctx);
    if i == scripts.len() - 1 {
        assert(r[r.len() - 1] == scripts[i].1);
    } else {
        let d = scripts.drop_last();
        assert(d[i] == scripts[i]);
        lemma_context_scripts_has(d, links, guild_id, ctx, i);
        let sub = context_scripts(d, links, guild_id, ctx);
        let k = choose|k: int| 0 <= k < sub.len() && sub[k] == scripts[i].1;
        assert(r[k] == sub[k]);
    }
}

/// After a guild's script is linked to a context, the scripts listed for that
/// context include it; after that link is removed, they do not.
pub proof fn lemma_link_then_unlink(before: ConfigModel, guild_id: u64, name: String, ctx: ScriptContext)
    requires
        before.wf(),
        before.has_script(guild_id, name@),
    ensures
        exists|k: int|
            0 <= k < listed_for(with_link(before, guild_id, ScriptLink { script_name: name, context: ctx }), guild_id, ctx).len()
                && (#[trigger] listed_for(with_link(before, guild_id, ScriptLink { script_name: name, context: ctx }), guild_id, ctx)[k]).name@
                == name@,
        forall|k: int|
            0 <= k < listed_for(
                without_link(with_link(before, guild_id, ScriptLink { script_name: name, context: ctx }), guild_id, name@, ctx),
                guild_id,
                ctx,
            ).len() ==> (#[trigger] listed_for(
                without_link(with_link(before, guild_id, ScriptLink { script_name: name, context: ctx }), guild_id, name@, ctx),
                guild_id,
                ctx,
            )[k]).name@ != name@,
{
    let linked = with_link(before, guild_id, ScriptLink { script_name: name, context: ctx });
    assert(has_link_in(linked.links, guild_id, name@, ctx)) by {
        if !before.has_link(guild_id, name@, ctx) {
            assert(link_has_key(linked.links[before.links.len() as int], guild_id, name@, ctx));
        }
    }
    let i = choose|i: int| 0 <= i < before.scripts.len() && #[trigger] script_has_key(before.scripts[i], guild_id, name@);
    lemma_context_scripts_has(linked.scripts, linked.links, guild_id, ctx, i);
    let listed = listed_for(linked, guild_id, ctx);
    let k = choose|k: int| 0 <= k < listed.len() && listed[k] == linked.scripts[i].1;
    assert(listed[k].name@ == name@);

    let p = other_link(guild_id, name@, ctx);
    let f = linked.links.filter(p);
    lemma_filter_members(linked.links, p);
    assert(!has_link_in(f, guild_id, name@, ctx)) by {
        assert forall|j: int| 0 <= j < f.len() implies !#[trigger] link_has_key(f[j], guild_id, name@, ctx) by {
            assert(p(f[j]));
        }
    }
    lemma_context_scripts_linked(linked.scripts, f, guild_id, ctx);
}

/// Recording a guild twice under one id leaves exactly one record of that
/// id, the latest; removing it then finds it, and a second removal does not.
pub proof fn lemma_joined_upsert_twice(before: ConfigModel, first: JoinedGuild, second: JoinedGuild)
    requires
        before.wf(),
        first.id == second.id,
    ensures
        ({
            let after = joined_upserted(joined_upserted(before.joined, first), second);
            &&& exists|i: int| 0 <= i < after.len() && #[trigger] after[i].id == second.id
            &&& forall|i: int| 0 <= i < after.len() && #[trigger] after[i].id == second.id ==> after[i] == second
            &&& forall|i: int, j: int| 0 <= i < j < after.len() ==> after[i].id != after[j].id
            &&& !(exists|i: int| 0 <= i < joined_without(after, second.id).len() && #[trigger] joined_without(after, second.id)[i].id == second.id)
        }),
{
    let j0 = before.joined;
    let j1 = joined_upserted(j0, first);
    let j2 = joined_upserted(j1, second);
    let n = j0.len() as int;
    if exists|i: int| 0 <= i < j0.len() && #[trigger] j0[i].id == first.id {
        let i = choose|i: int| 0 <= i < j0.len() && #[trigger] j0[i].id == first.id;
        assert(j1[i].id == second.id);
        let c = choose|c: int| 0 <= c < j1.len() && #[trigger] j1[c].id == second.id;
        assert(c == i);
        assert(j2[i] == second);
    } else {
        assert(j1[n].id == second.id);
        let c = choose|c: int| 0 <= c < j1.len() && #[trigger] j1[c].id == second.id;
        assert(c == n);
        assert(j2[n] == second);
    }
    let c = choose|c: int| 0 <= c < j2.len() && #[trigger] j2[c].id == second.id;
    let r = joined_without(j2, second.id);
    assert forall|k: int| 0 <= k < r.len() implies #[trigger] r[k].id != second.id by {
        if k < c {
            assert(r[k] == j2[k]);
        } else {
            assert(r[k] == j2[k + 1]);
        }
    }
}

} // verus!
