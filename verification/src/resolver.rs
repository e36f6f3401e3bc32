//! The hierarchical configuration resolver.
//!
//! The register map is a flat table of nodes, each addressed by its full
//! dotted path and carrying named string or integer fields.  Field lookup
//! starts at the node a path addresses (under the current root) and, when
//! the field is absent there, follows that node's "parent" field to
//! another path, until the field is found or the chain is exhausted.
//! Resolution is an explicit iterative walk bounded by the number of
//! nodes, so a cyclic parent chain resolves to "not found" rather than
//! diverging.

use vstd::prelude::*;
use vstd::string::StringExecFns;
use crate::errors::RegError;
use crate::text::{prefix_of, str_eq, str_has_prefix};

verus! {

/// A configuration value: a string or an integer.
#[derive(Debug)]
pub enum FieldValue {
    Str(String),
    Int(i64),
}

/// One named field of a configuration node.
#[derive(Debug)]
pub struct ConfigField {
    pub name: String,
    pub value: FieldValue,
}

/// One node of the register map, addressed by its full dotted path.
#[derive(Debug)]
pub struct ConfigNode {
    pub path: String,
    pub fields: Vec<ConfigField>,
}

/// The value of the first field called `name`, if any.
pub open spec fn field_value_of(fields: Seq<ConfigField>, name: Seq<char>) -> Option<FieldValue>
    decreases fields.len(),
{
    if fields.len() == 0 {
        None
    } else if fields[0].name@ == name {
        Some(fields[0].value)
    } else {
        field_value_of(fields.drop_first(), name)
    }
}

/// The first node whose path is `key`, if any.
pub open spec fn node_at(nodes: Seq<ConfigNode>, key: Seq<char>) -> Option<ConfigNode>
    decreases nodes.len(),
{
    if nodes.len() == 0 {
        None
    } else if nodes[0].path@ == key {
        Some(nodes[0])
    } else {
        node_at(nodes.drop_first(), key)
    }
}

/// A path joined under a root: dotted concatenation, with an empty root
/// or an empty path leaving the other side untouched.
pub open spec fn join_spec(root: Seq<char>, path: Seq<char>) -> Seq<char> {
    if root.len() == 0 {
        path
    } else if path.len() == 0 {
        root
    } else {
        root + seq!['.'] + path
    }
}

/// Field lookup with parent fallback, bounded by `fuel` node visits.
pub open spec fn resolve_fuel(
    nodes: Seq<ConfigNode>,
    root: Seq<char>,
    path: Seq<char>,
    field: Seq<char>,
    fuel: nat,
) -> Option<FieldValue>
    decreases fuel,
{
    if fuel == 0 {
        None
    } else {
        match node_at(nodes, join_spec(root, path)) {
            None => None,
            Some(n) => match field_value_of(n.fields@, field) {
                Some(v) => Some(v),
                None => match field_value_of(n.fields@, "parent"@) {
                    Some(FieldValue::Str(p)) => resolve_fuel(
                        nodes,
                        root,
                        p@,
                        field,
                        (fuel - 1) as nat,
                    ),
                    _ => None,
                },
            },
        }
    }
}

/// Field lookup with parent fallback.  One fuel unit per node suffices:
/// any longer chain revisits a node and so never terminates anyway.
pub open spec fn resolve_field(
    nodes: Seq<ConfigNode>,
    root: Seq<char>,
    path: Seq<char>,
    field: Seq<char>,
) -> Option<FieldValue> {
    resolve_fuel(nodes, root, path, field, nodes.len())
}

/// `p` lies at or under `root`: equal to it, or below it with a dot.
pub open spec fn node_under(p: Seq<char>, root: Seq<char>) -> bool {
    p == root || prefix_of(root + seq!['.'], p)
}

/// Some node lies at or under `root`.
pub open spec fn subtree_exists(nodes: Seq<ConfigNode>, root: Seq<char>) -> bool {
    exists|i: int| 0 <= i < nodes.len() && node_under(#[trigger] nodes[i].path@, root)
}

/// The register map with the root that paths are currently resolved
/// under.  Nodes never change after construction; only the root moves.
#[derive(Debug)]
pub struct ConfigDoc {
    pub nodes: Vec<ConfigNode>,
    pub root: String,
}

/// The first field called `name` of `fields`, if any.
fn find_field<'a>(fields: &'a Vec<ConfigField>, name: &str) -> (r: Option<&'a FieldValue>)
    ensures
        match r {
            Some(v) => field_value_of(fields@, name@) == Some(*v),
            None => field_value_of(fields@, name@) is None,
        },
{
    proof {
        assert(fields@.skip(0) =~= fields@);
    }
    let mut i: usize = 0;
    while i < fields.len()
        invariant
            i <= fields@.len(),
            field_value_of(fields@, name@) == field_value_of(fields@.skip(i as int), name@),
        decreases fields@.len() - i,
    {
        proof {
            assert(fields@.skip(i as int)[0] == fields@[i as int]);
        }
        if str_eq(fields[i].name.as_str(), name) {
            return Some(&fields[i].value);
        }
        proof {
            assert(fields@.skip(i as int).drop_first() =~= fields@.skip(i + 1));
        }
        i += 1;
    }
    proof {
        assert(fields@.skip(fields@.len() as int).len() == 0);
    }
    None
}

/// The first node whose path is `key`, if any.
fn find_node<'a>(nodes: &'a Vec<ConfigNode>, key: &str) -> (r: Option<&'a ConfigNode>)
    ensures
        match r {
            Some(n) => node_at(nodes@, key@) == Some(*n),
            None => node_at(nodes@, key@) is None,
        },
{
    proof {
        assert(nodes@.skip(0) =~= nodes@);
    }
    let mut i: usize = 0;
    while i < nodes.len()
        invariant
            i <= nodes@.len(),
            node_at(nodes@, key@) == node_at(nodes@.skip(i as int), key@),
        decreases nodes@.len() - i,
    {
        proof {
            assert(nodes@.skip(i as int)[0] == nodes@[i as int]);
        }
        if str_eq(nodes[i].path.as_str(), key) {
            return Some(&nodes[i]);
        }
        proof {
            assert(nodes@.skip(i as int).drop_first() =~= nodes@.skip(i + 1));
        }
        i += 1;
    }
    proof {
        assert(nodes@.skip(nodes@.len() as int).len() == 0);
    }
    None
}

impl ConfigDoc {
    /// The resolver is in a usable state: its root is empty or names a
    /// populated subtree, so rebasing back to it always succeeds.
    pub open spec fn wf(&self) -> bool {
        self.root@.len() == 0 || subtree_exists(self.nodes@, self.root@)
    }

    /// A resolver over `nodes`, rooted at the top of the document.
    pub fn new(nodes: Vec<ConfigNode>) -> (r: ConfigDoc)
        ensures
            r.nodes@ == nodes@,
            r.root@ == Seq::<char>::empty(),
            r.wf(),
    {
        ConfigDoc { nodes, root: String::new() }
    }

    /// `path` joined under the current root.
    fn join(&self, path: &str) -> (r: String)
        ensures
            r@ == join_spec(self.root@, path@),
    {
        if self.root.as_str().unicode_len() == 0 {
            return path.to_owned();
        }
        if path.unicode_len() == 0 {
            return self.root.clone();
        }
        let mut k = self.root.clone();
        k.append(".");
        k.append(path);
        proof {
            reveal_strlit(".");
            assert(k@ =~= self.root@ + seq!['.'] + path@);
        }
        k
    }

    /// Walk the parent chain from `path` looking for `field`.
    fn resolve_rec(&self, path: &str, field: &str, fuel: usize) -> (r: Option<&FieldValue>)
        ensures
            match r {
                Some(v) => resolve_fuel(self.nodes@, self.root@, path@, field@, fuel as nat)
                    == Some(*v),
                None => resolve_fuel(self.nodes@, self.root@, path@, field@, fuel as nat)
                    is None,
            },
        decreases fuel,
    {
        if fuel == 0 {
            return None;
        }
        let key = self.join(path);
        match find_node(&self.nodes, key.as_str()) {
            None => None,
            Some(n) => match find_field(&n.fields, field) {
                Some(v) => Some(v),
                None => match find_field(&n.fields, "parent") {
                    Some(FieldValue::Str(p)) => self.resolve_rec(p.as_str(), field, fuel - 1),
                    _ => None,
                },
            },
        }
    }

    /// Resolve a string field at `path`, falling back along the parent
    /// chain.  A field found with the wrong type stops the walk and
    /// counts as not found.
    pub fn get_string_field_or_parent(&self, path: &str, field: &str) -> (r: Result<
        String,
        RegError,
    >)
        ensures
            match resolve_field(self.nodes@, self.root@, path@, field@) {
                Some(FieldValue::Str(v)) => r is Ok && r->Ok_0@ == v@,
                _ => r == Err::<String, RegError>(RegError::NotFound),
            },
    {
        match self.resolve_rec(path, field, self.nodes.len()) {
            Some(FieldValue::Str(v)) => Ok(v.clone()),
            _ => Err(RegError::NotFound),
        }
    }

    /// Resolve an integer field at `path`, falling back along the parent
    /// chain.  A field found with the wrong type stops the walk and
    /// counts as not found.
    pub fn get_int_field_or_parent(&self, path: &str, field: &str) -> (r: Result<i64, RegError>)
        ensures
            match resolve_field(self.nodes@, self.root@, path@, field@) {
                Some(FieldValue::Int(v)) => r == Ok::<i64, RegError>(v),
                _ => r == Err::<i64, RegError>(RegError::NotFound),
            },
    {
        match self.resolve_rec(path, field, self.nodes.len()) {
            Some(FieldValue::Int(v)) => Ok(*v),
            _ => Err(RegError::NotFound),
        }
    }

    /// Whether some node lies at or under `root`.
    fn subtree_check(&self, root: &str) -> (r: bool)
        ensures
            r == subtree_exists(self.nodes@, root@),
    {
        let mut pref = root.to_owned();
        pref.append(".");
        proof {
            reveal_strlit(".");
            assert(pref@ =~= root@ + seq!['.']);
        }
        let mut i: usize = 0;
        while i < self.nodes.len()
            invariant
                i <= self.nodes@.len(),
                pref@ == root@ + seq!['.'],
                forall|j: int|
                    0 <= j < i ==> !node_under(#[trigger] self.nodes@[j].path@, root@),
            decreases self.nodes@.len() - i,
        {
            if str_eq(self.nodes[i].path.as_str(), root) || str_has_prefix(
                self.nodes[i].path.as_str(),
                pref.as_str(),
            ) {
                proof {
                    assert(node_under(self.nodes@[i as int].path@, root@));
                }
                return true;
            }
            i += 1;
        }
        false
    }

    /// Rebase resolution under `path` (given absolutely, not relative to
    /// the current root); an empty path addresses the whole document.
    /// Returns the previous root, which the caller must restore.  Fails
    /// without effect when no node lies under `path`.
    pub fn set_root(&mut self, path: &str) -> (r: Result<String, RegError>)
        ensures
            final(self).nodes@ == old(self).nodes@,
            if path@.len() == 0 || subtree_exists(old(self).nodes@, path@) {
                &&& r is Ok
                &&& r->Ok_0@ == old(self).root@
                &&& final(self).root@ == path@
            } else {
                &&& r == Err::<String, RegError>(RegError::RootNotFound)
                &&& final(self).root@ == old(self).root@
            },
            old(self).wf() ==> final(self).wf(),
    {
        let ok = if path.unicode_len() == 0 {
            true
        } else {
            self.subtree_check(path)
        };
        if !ok {
            return Err(RegError::RootNotFound);
        }
        let prev = self.root.clone();
        self.root = path.to_owned();
        Ok(prev)
    }

    /// The current root, for diagnostic display.
    pub fn root_str(&self) -> (r: &str)
        ensures
            r@ == self.root@,
    {
        self.root.as_str()
    }
}

} // verus!
