//! Which compatibility tool each application is assigned, as the root
//! configuration file says it.

use vstd::prelude::*;
use crate::steam::text_vdf::{
    key_names, key_values, parse_vdf_keys, parses_all, parses_one, texts, KeyParser,
    KeyValue,
};
use crate::steam::{add_id, AppId, DEFAULT_PROTON_APP_ID};

verus! {

/// Tools with their applications, as a mapping is modelled: the tools in the
/// order in which the file first names them, each with its applications in
/// file order.
pub type Tools = Seq<(Seq<char>, Seq<AppId>)>;

/// Whether no tool stands twice in `tools`.
pub open spec fn distinct_tools(tools: Tools) -> bool {
    forall|i: int, j: int|
        0 <= i < tools.len() && 0 <= j < tools.len() && i != j ==> (#[trigger] tools[i]).0
            != (#[trigger] tools[j]).0
}

/// Whether the application `id` stands under some tool of `tools`.
pub open spec fn has_app(tools: Tools, id: AppId) -> bool {
    exists|i: int, j: int|
        0 <= i < tools.len() && 0 <= j < tools[i].1.len() && #[trigger] tools[i].1[j] == id
}

/// The place of `tool` among the first `n` of `tools`.
pub open spec fn tool_index(tools: Tools, tool: Seq<char>, n: int) -> Option<int>
    decreases n,
{
    if n <= 0 || n > tools.len() {
        None
    } else if tools[n - 1].0 == tool {
        Some(n - 1)
    } else {
        tool_index(tools, tool, n - 1)
    }
}

/// `tools` with the application `id` under `tool`: behind the applications
/// that the tool has, or under a new last tool. The id that stands for no
/// application is not taken.
pub open spec fn with_app(tools: Tools, tool: Seq<char>, id: AppId) -> Tools {
    if id.is_default() {
        tools
    } else {
        match tool_index(tools, tool, tools.len() as int) {
            Some(i) => tools.update(i, (tool, tools[i].1.push(id))),
            None => tools.push((tool, seq![id])),
        }
    }
}

/// The tools of a file, from the values found for the tool's name.
pub open spec fn tools_of(found: Seq<KeyValue>) -> Tools
    decreases found.len(),
{
    if found.len() == 0 {
        Seq::empty()
    } else {
        with_app(tools_of(found.drop_last()), found.last().value, found.last().app_id)
    }
}

/// What `tool_index` finds is the tool; what it does not find is not there.
pub proof fn lemma_tool_index(tools: Tools, tool: Seq<char>, n: int)
    requires
        0 <= n <= tools.len(),
    ensures
        match tool_index(tools, tool, n) {
            Some(i) => 0 <= i < n && tools[i].0 == tool,
            None => forall|i: int| 0 <= i < n ==> (#[trigger] tools[i]).0 != tool,
        },
    decreases n,
{
    if n > 0 && tools[n - 1].0 != tool {
        lemma_tool_index(tools, tool, n - 1);
    }
}

/// Taking an application in keeps the tools distinct and brings in no
/// application but the one taken.
pub proof fn lemma_with_app(tools: Tools, tool: Seq<char>, id: AppId)
    requires
        distinct_tools(tools),
    ensures
        distinct_tools(with_app(tools, tool, id)),
        forall|other: AppId|
            has_app(with_app(tools, tool, id), other) <==> has_app(tools, other) || (other == id
                && !id.is_default()),
{
    let after = with_app(tools, tool, id);
    lemma_tool_index(tools, tool, tools.len() as int);
    if !id.is_default() {
        match tool_index(tools, tool, tools.len() as int) {
            Some(i) => {
                assert(after[i].1[tools[i].1.len() as int] == id);
                assert forall|other: AppId| has_app(tools, other) implies has_app(
                    after,
                    other,
                ) by {
                    let (a, b) = choose|a: int, b: int|
                        0 <= a < tools.len() && 0 <= b < tools[a].1.len() && #[trigger] tools[a].1[b]
                            == other;
                    assert(after[a].1[b] == other);
                }
                assert forall|other: AppId| has_app(after, other) implies has_app(tools, other)
                    || other == id by {
                    let (a, b) = choose|a: int, b: int|
                        0 <= a < after.len() && 0 <= b < after[a].1.len() && #[trigger] after[a].1[b]
                            == other;
                    if a != i || b < tools[i].1.len() {
                        assert(tools[a].1[b] == other);
                    }
                }
            },
            None => {
                let last = tools.len() as int;
                assert(after[last].1[0] == id);
                assert forall|other: AppId| has_app(tools, other) implies has_app(
                    after,
                    other,
                ) by {
                    let (a, b) = choose|a: int, b: int|
                        0 <= a < tools.len() && 0 <= b < tools[a].1.len() && #[trigger] tools[a].1[b]
                            == other;
                    assert(after[a].1[b] == other);
                }
                assert forall|other: AppId| has_app(after, other) implies has_app(tools, other)
                    || other == id by {
                    let (a, b) = choose|a: int, b: int|
                        0 <= a < after.len() && 0 <= b < after[a].1.len() && #[trigger] after[a].1[b]
                            == other;
                    if a < last {
                        assert(tools[a].1[b] == other);
                    }
                }
            },
        }
    }
}

/// The tools of a file are distinct, and the id that stands for no
/// application is under none of them.
pub proof fn lemma_tools_of(found: Seq<KeyValue>)
    ensures
        distinct_tools(tools_of(found)),
        !has_app(tools_of(found), AppId(DEFAULT_PROTON_APP_ID)),
    decreases found.len(),
{
    if found.len() > 0 {
        lemma_tools_of(found.drop_last());
        lemma_with_app(tools_of(found.drop_last()), found.last().value, found.last().app_id);
    }
}

/// The compatibility tools with the applications assigned to each of them.
pub struct CompatToolMapping {
    tools: Vec<(String, Vec<AppId>)>,
}

impl View for CompatToolMapping {
    type V = Tools;

    closed spec fn view(&self) -> Tools {
        Seq::new(self.tools@.len(), |i: int| (self.tools@[i].0@, self.tools@[i].1@))
    }
}

impl Default for CompatToolMapping {
    fn default() -> (mapping: CompatToolMapping)
        ensures
            mapping@ == Tools::empty(),
    {
        CompatToolMapping::new()
    }
}

impl CompatToolMapping {
    /// The mapping without any tool.
    pub fn new() -> (mapping: CompatToolMapping)
        ensures
            mapping@ == Tools::empty(),
    {
        let mapping = CompatToolMapping { tools: Vec::new() };
        assert(mapping@ =~= Tools::empty());
        mapping
    }

    /// The place of `tool` among the tools.
    fn find(&self, tool: &String) -> (at: Option<usize>)
        ensures
            match at {
                Some(i) => tool_index(self@, tool@, self@.len() as int) == Some(i as int) && i
                    < self.tools.len(),
                None => tool_index(self@, tool@, self@.len() as int) is None,
            },
    {
        let mut n: usize = self.tools.len();
        while n > 0
            invariant
                n <= self.tools.len() == self@.len(),
                tool_index(self@, tool@, self@.len() as int) == tool_index(self@, tool@, n as int),
            decreases n,
        {
            if self.tools[n - 1].0 == *tool {
                return Some(n - 1);
            }
            n -= 1;
        }
        None
    }

    /// The applications of `key`, to read and to change; a tool that the
    /// mapping does not have yet comes in as its last, without applications.
    pub fn entry(&mut self, key: String) -> (apps: &mut Vec<AppId>)
        ensures
            apps@ == match tool_index(old(self)@, key@, old(self)@.len() as int) {
                Some(i) => old(self)@[i].1,
                None => Seq::empty(),
            },
            final(self)@ =~= match tool_index(old(self)@, key@, old(self)@.len() as int) {
                Some(i) => old(self)@.update(i, (key@, final(apps)@)),
                None => old(self)@.push((key@, final(apps)@)),
            },
    {
        proof {
            lemma_tool_index(self@, key@, self@.len() as int);
        }
        let at = match self.find(&key) {
            Some(i) => i,
            None => {
                self.tools.push((key, Vec::new()));
                self.tools.len() - 1
            },
        };
        &mut self.tools[at].1
    }

    /// The tools, in the mapping's order.
    pub fn keys(&self) -> (tools: Vec<&String>)
        ensures
            tools.len() == self@.len(),
            forall|i: int| 0 <= i < tools.len() ==> (#[trigger] tools[i])@ == self@[i].0,
    {
        let mut tools: Vec<&String> = Vec::new();
        let mut i: usize = 0;
        while i < self.tools.len()
            invariant
                i <= self.tools.len() == self@.len(),
                tools.len() == i,
                forall|k: int| 0 <= k < i ==> (#[trigger] tools[k])@ == self@[k].0,
            decreases self.tools.len() - i,
        {
            tools.push(&self.tools[i].0);
            i += 1;
        }
        tools
    }

    /// The applications of each tool, the tools in the mapping's order.
    pub fn values(&self) -> (lists: Vec<&Vec<AppId>>)
        ensures
            lists.len() == self@.len(),
            forall|i: int| 0 <= i < lists.len() ==> (#[trigger] lists[i])@ == self@[i].1,
    {
        let mut lists: Vec<&Vec<AppId>> = Vec::new();
        let mut i: usize = 0;
        while i < self.tools.len()
            invariant
                i <= self.tools.len() == self@.len(),
                lists.len() == i,
                forall|k: int| 0 <= k < i ==> (#[trigger] lists[k])@ == self@[k].1,
            decreases self.tools.len() - i,
        {
            lists.push(&self.tools[i].1);
            i += 1;
        }
        lists
    }

    /// The applications that have a tool, each once, in the order in which
    /// the mapping first has them.
    pub fn apps(&self) -> (ids: Vec<AppId>)
        ensures
            ids@.no_duplicates(),
            forall|id: AppId| ids@.contains(id) <==> has_app(self@, id),
    {
        let mut ids: Vec<AppId> = Vec::new();
        let mut i: usize = 0;
        while i < self.tools.len()
            invariant
                i <= self.tools.len() == self@.len(),
                ids@.no_duplicates(),
                forall|id: AppId| #[trigger]
                    ids@.contains(id) <==> has_app(self@.take(i as int), id),
            decreases self.tools.len() - i,
        {
            let list = &self.tools[i].1;
            let ghost done = self@.take(i as int);
            let ghost next = self@.take(i + 1);
            let mut j: usize = 0;
            while j < list.len()
                invariant
                    i < self.tools.len() == self@.len(),
                    j <= list.len(),
                    list@ == self@[i as int].1,
                    done == self@.take(i as int),
                    ids@.no_duplicates(),
                    forall|id: AppId| #[trigger]
                        ids@.contains(id) <==> has_app(done, id) || list@.take(j as int).contains(
                            id,
                        ),
                decreases list.len() - j,
            {
                let id = list[j];
                let ghost before = ids@;
                assert(list@.take(j + 1) =~= list@.take(j as int).push(id));
                add_id(&mut ids, id);
                assert forall|other: AppId| #[trigger]
                    ids@.contains(other) <==> has_app(done, other) || list@.take(j + 1).contains(
                        other,
                    ) by {
                    assert(before.contains(other) <==> has_app(done, other) || list@.take(
                        j as int,
                    ).contains(other));
                    assert(ids@.contains(other) <==> before.contains(other) || other == id);
                    if list@.take(j as int).contains(other) {
                        let k = choose|k: int|
                            0 <= k < j && list@.take(j as int)[k] == other;
                        assert(list@.take(j + 1)[k] == other);
                    }
                    if other == id {
                        assert(list@.take(j + 1)[j as int] == id);
                    }
                }
                j += 1;
            }
            assert(list@.take(j as int) =~= list@);
            assert forall|id: AppId| #[trigger]
                has_app(next, id) <==> has_app(done, id) || list@.contains(id) by {
                if has_app(done, id) {
                    let (a, b) = choose|a: int, b: int|
                        0 <= a < done.len() && 0 <= b < done[a].1.len() && #[trigger] done[a].1[b]
                            == id;
                    assert(next[a].1[b] == id);
                }
                if list@.contains(id) {
                    let b = choose|b: int| 0 <= b < list@.len() && list@[b] == id;
                    assert(next[i as int].1[b] == id);
                }
                if has_app(next, id) {
                    let (a, b) = choose|a: int, b: int|
                        0 <= a < next.len() && 0 <= b < next[a].1.len() && #[trigger] next[a].1[b]
                            == id;
                    if a < i {
                        assert(done[a].1[b] == id);
                    } else {
                        assert(list@[b] == id);
                    }
                }
            }
            assert forall|id: AppId| #[trigger] ids@.contains(id) <==> has_app(next, id) by {
                assert(has_app(next, id) <==> has_app(done, id) || list@.contains(id));
            }
            i += 1;
        }
        assert(self@.take(i as int) =~= self@);
        ids
    }
}

/// Takes the application `app_id` in under the tool `tool_name`, but for the
/// id that stands for no application.
pub fn parse_tool_name(tool_name: &str, app_id: &AppId, map: &mut CompatToolMapping)
    ensures
        final(map)@ == with_app(old(map)@, tool_name@, *app_id),
{
    if app_id.0 != DEFAULT_PROTON_APP_ID {
        let apps = map.entry(tool_name.to_owned());
        apps.push(*app_id);
    }
}

/// The parser of the key that names an application's tool.
pub struct ToolName;

impl KeyParser<CompatToolMapping> for ToolName {
    fn parse(&self, value: &str, app_id: &AppId, acc: CompatToolMapping) -> (mapping:
        CompatToolMapping)
        ensures
            mapping@ == with_app(acc@, value@, *app_id),
    {
        let mut mapping = acc;
        parse_tool_name(value, app_id, &mut mapping);
        mapping
    }
}

/// A run of the tool name's parser over `found` takes each of its values in.
proof fn lemma_parses_tools(
    parsers: Seq<(&str, ToolName)>,
    found: Seq<KeyValue>,
    start: CompatToolMapping,
    end: CompatToolMapping,
)
    requires
        parses_all(parsers, found, start, end),
        start@ == Tools::empty(),
    ensures
        end@ == tools_of(found),
    decreases found.len(),
{
    if found.len() > 0 {
        let mid = choose|mid: CompatToolMapping|
            parses_all(parsers, found.drop_last(), start, mid) && #[trigger] parses_one(
                parsers,
                found.last(),
                mid,
                end,
            );
        lemma_parses_tools(parsers, found.drop_last(), start, mid);
    }
}

/// The section of the root configuration file that assigns the tools.
pub open spec fn tool_section() -> Seq<char> {
    "CompatToolMapping"@
}

/// The key under which an application's block names its tool.
pub open spec fn tool_keys() -> Seq<Seq<char>> {
    seq!["name"@]
}

/// Reads the tools and their applications off the lines of the root
/// configuration file. No tool stands twice in the result, and the id that
/// stands for no application is under none.
pub fn parse_compat_tool_mapping(config_lines: &Vec<String>) -> (mapping: CompatToolMapping)
    ensures
        mapping@ == tools_of(key_values(tool_section(), texts(config_lines@), tool_keys(), None)),
        distinct_tools(mapping@),
        !has_app(mapping@, AppId(DEFAULT_PROTON_APP_ID)),
{
    let mut parsers: Vec<(&str, ToolName)> = Vec::new();
    parsers.push(("name", ToolName));
    assert(key_names(parsers@) =~= tool_keys());
    let mapping: CompatToolMapping = parse_vdf_keys(
        "CompatToolMapping",
        config_lines,
        &parsers,
        None,
    );
    proof {
        let found = key_values(tool_section(), texts(config_lines@), tool_keys(), None);
        let start = choose|start: CompatToolMapping| #[trigger]
            call_ensures(CompatToolMapping::default, (), start) && parses_all(
                parsers@,
                found,
                start,
                mapping,
            );
        lemma_parses_tools(parsers@, found, start, mapping);
        lemma_tools_of(found);
    }
    mapping
}

} // verus!
