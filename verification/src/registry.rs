//! The tool registry: a server holds one descriptor per tool name, the
//! last registration under a name winning. Lookups and snapshots read
//! the same state that registration writes.

use vstd::prelude::*;
use crate::json::JVal;
use crate::schema::{derive_schema, schema_model, ParameterSpec};
use crate::strutil::str_eq;
use crate::types::Tool;

verus! {

/// Everything registered about one tool: its unique name, its human
/// description, and its declared parameter list, from which the input
/// schema is derived.
pub struct ToolDescriptor {
    pub name: String,
    pub description: String,
    pub params: Vec<ParameterSpec>,
}

impl ToolDescriptor {
    /// The `tools/list` entry this descriptor produces.
    pub open spec fn entry_model(self) -> JVal {
        JVal::Obj(
            seq![
                ("name"@, JVal::Str(self.name@)),
                ("description"@, JVal::Str(self.description@)),
                ("input_schema"@, schema_model(self.params@)),
            ],
        )
    }

    /// Build the input schema of this descriptor.
    pub fn input_schema(&self) -> (r: crate::json::JsonValue)
        ensures
            r@ == schema_model(self.params@),
    {
        derive_schema(&self.params)
    }
}

/// Something that supplies a batch of tool descriptors.
pub trait HasTools {
    /// The descriptors this provider supplies.
    spec fn spec_tools(&self) -> Seq<ToolDescriptor>;

    /// Hand out the descriptors.
    fn tools(self) -> (r: Vec<ToolDescriptor>)
        ensures
            r@ == self.spec_tools(),
    ;
}

/// Whether a descriptor sequence carries pairwise distinct tool names.
pub open spec fn wf_tools(s: Seq<ToolDescriptor>) -> bool {
    forall|i: int, j: int| 0 <= i < j < s.len() ==> s[i].name@ != s[j].name@
}

/// The position of the first descriptor named `n`, if any.
pub open spec fn find_name(s: Seq<ToolDescriptor>, n: Seq<char>) -> Option<int>
    decreases s.len(),
{
    if s.len() == 0 {
        None
    } else if s[0].name@ == n {
        Some(0)
    } else {
        match find_name(s.skip(1), n) {
            Some(i) => Some(i + 1),
            None => None,
        }
    }
}

/// What `find_name` returns: the first position whose descriptor is
/// named `n`, or nothing when no descriptor is.
pub proof fn lemma_find_name(s: Seq<ToolDescriptor>, n: Seq<char>)
    ensures
        match find_name(s, n) {
            Some(i) => 0 <= i < s.len() && s[i].name@ == n
                && forall|j: int| 0 <= j < i ==> s[j].name@ != n,
            None => forall|j: int| 0 <= j < s.len() ==> s[j].name@ != n,
        },
    decreases s.len(),
{
    if s.len() == 0 {
    } else if s[0].name@ == n {
    } else {
        lemma_find_name(s.skip(1), n);
        match find_name(s.skip(1), n) {
            Some(i) => {
                assert(s[i + 1].name@ == s.skip(1)[i].name@);
                assert forall|j: int| 0 <= j < i + 1 implies s[j].name@ != n by {
                    if j >= 1 {
                        assert(s[j] == s.skip(1)[j - 1]);
                    }
                }
            }
            None => {
                assert forall|j: int| 0 <= j < s.len() implies s[j].name@ != n by {
                    if j >= 1 {
                        assert(s[j] == s.skip(1)[j - 1]);
                    }
                }
            }
        }
    }
}

/// A first descriptor named `n` with nothing earlier pins `find_name` down.
pub proof fn lemma_find_name_is(s: Seq<ToolDescriptor>, n: Seq<char>, i: int)
    requires
        0 <= i < s.len(),
        s[i].name@ == n,
        forall|j: int| 0 <= j < i ==> s[j].name@ != n,
    ensures
        find_name(s, n) == Some(i),
{
    lemma_find_name(s, n);
    match find_name(s, n) {
        Some(fi) => {
            assert(!(fi < i));
            assert(!(i < fi));
        }
        None => {
            assert(false);
        }
    }
}

/// A name no descriptor carries makes `find_name` return nothing.
pub proof fn lemma_find_name_none(s: Seq<ToolDescriptor>, n: Seq<char>)
    requires
        forall|j: int| 0 <= j < s.len() ==> s[j].name@ != n,
    ensures
        find_name(s, n) is None,
{
    lemma_find_name(s, n);
    if find_name(s, n) is Some {
        assert(false);
    }
}

/// One registration: replace the descriptor under the same name, or
/// append when the name is new.
pub open spec fn spec_register(s: Seq<ToolDescriptor>, d: ToolDescriptor) -> Seq<ToolDescriptor> {
    match find_name(s, d.name@) {
        Some(i) => s.update(i, d),
        None => s.push(d),
    }
}

/// A batch of registrations, in order.
pub open spec fn spec_register_all(
    s: Seq<ToolDescriptor>,
    ds: Seq<ToolDescriptor>,
) -> Seq<ToolDescriptor>
    decreases ds.len(),
{
    if ds.len() == 0 {
        s
    } else {
        spec_register(spec_register_all(s, ds.drop_last()), ds.last())
    }
}

/// What one registration does: names stay pairwise distinct, the new
/// descriptor stands under its name, every other name keeps its
/// descriptor, and the count grows exactly when the name was new.
pub proof fn lemma_register_props(s: Seq<ToolDescriptor>, d: ToolDescriptor)
    requires
        wf_tools(s),
    ensures
        wf_tools(spec_register(s, d)),
        find_name(s, d.name@) is Some ==> spec_register(s, d).len() == s.len(),
        find_name(s, d.name@) is None ==> spec_register(s, d).len() == s.len() + 1,
        ({
            let r = spec_register(s, d);
            &&& find_name(r, d.name@) is Some
            &&& r[find_name(r, d.name@)->0] == d
            &&& forall|n: Seq<char>| n != d.name@ ==> #[trigger] find_name(r, n) == find_name(s, n)
        }),
{
    lemma_find_name(s, d.name@);
    let r = spec_register(s, d);
    match find_name(s, d.name@) {
        Some(i) => {
            assert(r == s.update(i, d));
            assert(wf_tools(r));
            lemma_find_name_is(r, d.name@, i);
            assert forall|n: Seq<char>| n != d.name@ implies #[trigger] find_name(r, n)
                == find_name(s, n) by {
                lemma_find_name(s, n);
                match find_name(s, n) {
                    Some(k) => {
                        assert(r[k].name@ == n);
                        lemma_find_name_is(r, n, k);
                    }
                    None => {
                        lemma_find_name_none(r, n);
                    }
                }
            }
        }
        None => {
            assert(r == s.push(d));
            assert forall|i: int, j: int| 0 <= i < j < r.len() implies r[i].name@
                != r[j].name@ by {
                if j < r.len() - 1 {
                    assert(r[i] == s[i] && r[j] == s[j]);
                } else {
                    assert(r[j] == d && r[i] == s[i]);
                }
            }
            lemma_find_name_is(r, d.name@, s.len() as int);
            assert forall|n: Seq<char>| n != d.name@ implies #[trigger] find_name(r, n)
                == find_name(s, n) by {
                lemma_find_name(s, n);
                match find_name(s, n) {
                    Some(k) => {
                        lemma_find_name_is(r, n, k);
                    }
                    None => {
                        lemma_find_name_none(r, n);
                    }
                }
            }
        }
    }
}

/// Law: registering two descriptors under one name leaves the second
/// alone under that name — the registry holds exactly one entry so
/// named, it is the second descriptor (so a listing shows the second's
/// description and schema), and the second registration adds no entry.
pub proof fn lemma_register_replaces(s: Seq<ToolDescriptor>, d1: ToolDescriptor, d2: ToolDescriptor)
    requires
        wf_tools(s),
        d1.name@ == d2.name@,
    ensures
        ({
            let s2 = spec_register(spec_register(s, d1), d2);
            &&& wf_tools(s2)
            &&& s2.len() == spec_register(s, d1).len()
            &&& exists|i: int|
                {
                    &&& 0 <= i < s2.len()
                    &&& #[trigger] s2[i] == d2
                    &&& forall|j: int| 0 <= j < s2.len() && j != i ==> s2[j].name@ != d2.name@
                }
        }),
{
    let s1 = spec_register(s, d1);
    lemma_register_props(s, d1);
    lemma_register_props(s1, d2);
    let s2 = spec_register(s1, d2);
    lemma_find_name(s1, d2.name@);
    let i = find_name(s2, d2.name@)->0;
    lemma_find_name(s2, d2.name@);
    assert(s2[i] == d2);
    assert forall|j: int| 0 <= j < s2.len() && j != i implies s2[j].name@ != d2.name@ by {
        if s2[j].name@ == d2.name@ {
            if j < i {
                assert(false);
            } else {
                assert(false);
            }
        }
    }
}

/// Law: registering a descriptor under a fresh name grows the registry
/// by exactly one entry, so registering N uniquely-named tools into an
/// empty registry yields exactly N entries.
pub proof fn lemma_register_fresh_count(s: Seq<ToolDescriptor>, d: ToolDescriptor)
    requires
        wf_tools(s),
        find_name(s, d.name@) is None,
    ensures
        wf_tools(spec_register(s, d)),
        spec_register(s, d).len() == s.len() + 1,
{
    lemma_register_props(s, d);
}

/// The server: its own name and version, and the registry of tools it
/// exposes. Tool names are pairwise distinct.
pub struct McpServer {
    pub name: String,
    pub version: String,
    pub tools: Vec<ToolDescriptor>,
}

/// Whether the entries of a `tools/list` snapshot mirror a descriptor
/// sequence: same length, and entry by entry the same name, description
/// and derived schema.
pub open spec fn list_matches(s: Seq<ToolDescriptor>, r: Seq<Tool>) -> bool {
    &&& r.len() == s.len()
    &&& forall|i: int| 0 <= i < s.len() ==> (#[trigger] r[i]).json_model() == s[i].entry_model()
}

/// Law: a listing is a function of the registry alone — two snapshots
/// of one registry state describe the same entries, so repeated calls
/// without intervening registrations yield identical results.
pub proof fn lemma_list_deterministic(s: Seq<ToolDescriptor>, r1: Seq<Tool>, r2: Seq<Tool>)
    requires
        list_matches(s, r1),
        list_matches(s, r2),
    ensures
        r1.len() == r2.len(),
        forall|i: int| 0 <= i < r1.len()
            ==> (#[trigger] r1[i]).json_model() == r2[i].json_model(),
{
}

impl McpServer {
    /// Whether this server's registry carries pairwise distinct names.
    pub open spec fn wf(self) -> bool {
        wf_tools(self.tools@)
    }

    /// A server with the given name and version and no tools.
    pub fn new(name: &str, version: &str) -> (r: Self)
        ensures
            r.name@ == name@,
            r.version@ == version@,
            r.tools@ =~= Seq::<ToolDescriptor>::empty(),
            r.wf(),
    {
        McpServer {
            name: String::from_str(name),
            version: String::from_str(version),
            tools: Vec::new(),
        }
    }

    /// Register one tool: the descriptor replaces any earlier one under
    /// the same name.
    #[verifier::loop_isolation(false)]
    pub fn register_tool(&mut self, tool: ToolDescriptor)
        requires
            old(self).wf(),
        ensures
            final(self).wf(),
            final(self).name@ == old(self).name@,
            final(self).version@ == old(self).version@,
            final(self).tools@ == spec_register(old(self).tools@, tool),
    {
        proof {
            lemma_register_props(old(self).tools@, tool);
        }
        let ghost s = self.tools@;
        let mut i: usize = 0;
        while i < self.tools.len()
            invariant
                0 <= i <= s.len(),
                self.tools@ == s,
                self.name@ == old(self).name@,
                self.version@ == old(self).version@,
                forall|j: int| 0 <= j < i ==> s[j].name@ != tool.name@,
            decreases s.len() - i,
        {
            if str_eq(self.tools[i].name.as_str(), tool.name.as_str()) {
                proof {
                    lemma_find_name_is(s, tool.name@, i as int);
                }
                self.tools.set(i, tool);
                return ;
            }
            i = i + 1;
        }
        proof {
            lemma_find_name_none(s, tool.name@);
        }
        self.tools.push(tool);
    }

    /// Register one tool and hand the server back, for chaining.
    pub fn with_tool(self, tool: ToolDescriptor) -> (r: Self)
        requires
            self.wf(),
        ensures
            r.wf(),
            r.name@ == self.name@,
            r.version@ == self.version@,
            r.tools@ == spec_register(self.tools@, tool),
    {
        let mut s = self;
        s.register_tool(tool);
        s
    }

    /// Register a batch of tools, in order.
    #[verifier::loop_isolation(false)]
    pub fn register_tools_vec(&mut self, tools: Vec<ToolDescriptor>)
        requires
            old(self).wf(),
        ensures
            final(self).wf(),
            final(self).name@ == old(self).name@,
            final(self).version@ == old(self).version@,
            final(self).tools@ == spec_register_all(old(self).tools@, tools@),
    {
        let ghost ds = tools@;
        let mut tools = tools;
        let ghost mut i: int = 0;
        proof {
            assert(ds.take(0) =~= Seq::<ToolDescriptor>::empty());
        }
        while tools.len() > 0
            invariant
                0 <= i <= ds.len(),
                tools@ =~= ds.skip(i),
                self.wf(),
                self.name@ == old(self).name@,
                self.version@ == old(self).version@,
                self.tools@ == spec_register_all(old(self).tools@, ds.take(i)),
            decreases ds.len() - i,
        {
            let d = tools.remove(0);
            proof {
                assert(d == ds[i]);
            }
            self.register_tool(d);
            proof {
                assert(ds.take(i + 1).drop_last() =~= ds.take(i));
                assert(ds.take(i + 1).last() == ds[i]);
                assert(tools@ =~= ds.skip(i + 1));
                i = i + 1;
            }
        }
        proof {
            assert(ds.take(i) =~= ds);
        }
    }

    /// Register a batch of tools, in order, handing the server back.
    pub fn with_tools(self, tools: Vec<ToolDescriptor>) -> (r: Self)
        requires
            self.wf(),
        ensures
            r.wf(),
            r.name@ == self.name@,
            r.version@ == self.version@,
            r.tools@ == spec_register_all(self.tools@, tools@),
    {
        let mut s = self;
        s.register_tools_vec(tools);
        s
    }

    /// Register every tool a provider supplies.
    pub fn register_tools<T: HasTools>(&mut self, provider: T)
        requires
            old(self).wf(),
        ensures
            final(self).wf(),
            final(self).name@ == old(self).name@,
            final(self).version@ == old(self).version@,
            final(self).tools@ == spec_register_all(old(self).tools@, provider.spec_tools()),
    {
        let ds = provider.tools();
        self.register_tools_vec(ds);
    }

    /// The descriptor under `name`, if one is registered.
    #[verifier::loop_isolation(false)]
    pub fn lookup<'a>(&'a self, name: &str) -> (r: Option<&'a ToolDescriptor>)
        ensures
            match r {
                Some(d) => find_name(self.tools@, name@) is Some
                    && *d == self.tools@[find_name(self.tools@, name@)->0],
                None => find_name(self.tools@, name@) is None,
            },
    {
        let mut i: usize = 0;
        while i < self.tools.len()
            invariant
                0 <= i <= self.tools@.len(),
                forall|j: int| 0 <= j < i ==> self.tools@[j].name@ != name@,
            decreases self.tools@.len() - i,
        {
            if str_eq(self.tools[i].name.as_str(), name) {
                proof {
                    lemma_find_name_is(self.tools@, name@, i as int);
                }
                return Some(&self.tools[i]);
            }
            i = i + 1;
        }
        proof {
            lemma_find_name_none(self.tools@, name@);
        }
        None
    }

    /// A snapshot of every registered tool: name, description and
    /// derived input schema, in registry order.
    #[verifier::loop_isolation(false)]
    pub fn list(&self) -> (r: Vec<Tool>)
        ensures
            list_matches(self.tools@, r@),
    {
        let mut out: Vec<Tool> = Vec::new();
        for i in 0..self.tools.len()
            invariant
                out@.len() == i,
                forall|j: int| 0 <= j < i
                    ==> (#[trigger] out@[j]).json_model() == self.tools@[j].entry_model(),
        {
            let d = &self.tools[i];
            let t = Tool {
                name: d.name.clone(),
                description: d.description.clone(),
                input_schema: d.input_schema(),
            };
            out.push(t);
        }
        out
    }
}

} // verus!
