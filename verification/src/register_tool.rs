//! The register tool orchestrator.
//!
//! A tool is built over a resolver, gathers a whole batch of register
//! operations — collecting every per-spec error rather than stopping at
//! the first — binds a memory target, and applies the operations in
//! order.  A per-register failure during apply lands in that register's
//! result slot and never aborts its siblings.

use vstd::prelude::*;
use crate::errors::RegError;
use crate::memory::MemoryTarget;
use crate::register_op::{get_outcome, new_op_spec, set_outcome, RegisterOp};
use crate::resolver::{resolve_field, subtree_exists, ConfigDoc, ConfigNode, FieldValue};
use crate::text::{
    count_char, count_occurrences, find_first, index_of_first, lemma_count_char_zero,
    lemma_index_of_first, parse_u32, parse_u32_spec,
};

verus! {

/// An error paired with the register spec token or configuration field
/// it arose from, so a batch report names every offender.
#[derive(Debug)]
pub struct GatherError {
    pub subject: String,
    pub kind: RegError,
}

/// A string field resolved at `path`, when present with that type.
pub open spec fn cfg_str(
    nodes: Seq<ConfigNode>,
    root: Seq<char>,
    path: Seq<char>,
    field: Seq<char>,
) -> Option<Seq<char>> {
    match resolve_field(nodes, root, path, field) {
        Some(FieldValue::Str(s)) => Some(s@),
        _ => None,
    }
}

/// An integer field resolved at `path`, when present with that type.
pub open spec fn cfg_int(
    nodes: Seq<ConfigNode>,
    root: Seq<char>,
    path: Seq<char>,
    field: Seq<char>,
) -> Option<i64> {
    match resolve_field(nodes, root, path, field) {
        Some(FieldValue::Int(v)) => Some(v),
        _ => None,
    }
}

/// What one register spec token yields: "PATH" is read intent,
/// "PATH=VALUE" is write intent, more than one '=' or a bad value is
/// malformed.
pub open spec fn token_outcome(nodes: Seq<ConfigNode>, root: Seq<char>, t: Seq<char>) -> Result<
    RegisterOp,
    RegError,
> {
    let eqs = count_char(t, '=');
    if eqs >= 2 {
        Err(RegError::BadArgument)
    } else if eqs == 1 {
        let i: int = index_of_first(t, '=');
        match parse_u32_spec(t.subrange(i + 1, t.len() as int)) {
            None => Err(RegError::BadArgument),
            Some(v) => new_op_spec(nodes, root, t.subrange(0, i), Some(v)),
        }
    } else {
        new_op_spec(nodes, root, t, None)
    }
}

/// The operations a token list yields, in order; bad tokens yield none.
pub open spec fn gather_ops(
    nodes: Seq<ConfigNode>,
    root: Seq<char>,
    toks: Seq<Seq<char>>,
) -> Seq<RegisterOp>
    decreases toks.len(),
{
    if toks.len() == 0 {
        Seq::empty()
    } else {
        gather_ops(nodes, root, toks.drop_last()) + (match token_outcome(
            nodes,
            root,
            toks.last(),
        ) {
            Ok(op) => seq![op],
            Err(_) => Seq::empty(),
        })
    }
}

/// The failures a token list yields, in order, each with its token.
pub open spec fn gather_errs(nodes: Seq<ConfigNode>, root: Seq<char>, toks: Seq<Seq<char>>) -> Seq<
    (Seq<char>, RegError),
>
    decreases toks.len(),
{
    if toks.len() == 0 {
        Seq::empty()
    } else {
        gather_errs(nodes, root, toks.drop_last()) + (match token_outcome(
            nodes,
            root,
            toks.last(),
        ) {
            Ok(_) => Seq::empty(),
            Err(e) => seq![(toks.last(), e)],
        })
    }
}

/// What applying one operation yields: a read for read intent, a
/// read-modify-write for write intent.
pub open spec fn apply_one_spec(op: RegisterOp, words: Seq<u32>) -> (Result<u32, RegError>, Seq<
    u32,
>) {
    if op.value is None {
        (get_outcome(op, words), words)
    } else {
        set_outcome(op, words)
    }
}

/// Applying a whole batch in order: each operation sees the words the
/// previous ones left behind.
pub open spec fn apply_all_spec(ops: Seq<RegisterOp>, words: Seq<u32>) -> (Seq<
    Result<u32, RegError>,
>, Seq<u32>)
    decreases ops.len(),
{
    if ops.len() == 0 {
        (Seq::empty(), words)
    } else {
        let first = apply_one_spec(ops[0], words);
        let rest = apply_all_spec(ops.drop_first(), first.1);
        (seq![first.0] + rest.0, rest.1)
    }
}

/// Appending one operation to a batch appends exactly its outcome over
/// the words the batch leaves behind.
pub proof fn lemma_apply_all_snoc(ops: Seq<RegisterOp>, op: RegisterOp, words: Seq<u32>)
    ensures
        apply_all_spec(ops.push(op), words).0 == apply_all_spec(ops, words).0.push(
            apply_one_spec(op, apply_all_spec(ops, words).1).0,
        ),
        apply_all_spec(ops.push(op), words).1 == apply_one_spec(
            op,
            apply_all_spec(ops, words).1,
        ).1,
    decreases ops.len(),
{
    if ops.len() == 0 {
        let f = apply_one_spec(op, words);
        assert(ops.push(op)[0] == op);
        assert(ops.push(op).drop_first() =~= Seq::<RegisterOp>::empty());
        assert(apply_all_spec(Seq::<RegisterOp>::empty(), f.1).0 =~= Seq::<
            Result<u32, RegError>,
        >::empty());
        assert(apply_all_spec(Seq::<RegisterOp>::empty(), f.1).1 == f.1);
        assert(apply_all_spec(ops.push(op), words).0 =~= seq![f.0]);
        assert(apply_all_spec(ops.push(op), words).1 == f.1);
        assert(apply_all_spec(ops, words).1 == words);
        assert(apply_all_spec(ops, words).0.push(f.0) =~= seq![f.0]);
    } else {
        let f = apply_one_spec(ops[0], words);
        assert(ops.push(op)[0] == ops[0]);
        assert(ops.push(op).drop_first() =~= ops.drop_first().push(op));
        lemma_apply_all_snoc(ops.drop_first(), op, f.1);
        let rest = apply_all_spec(ops.drop_first(), f.1);
        let tailval = apply_one_spec(op, rest.1).0;
        assert(seq![f.0] + rest.0.push(tailval) =~= (seq![f.0] + rest.0).push(tailval));
    }
}

/// Law: applying a batch preserves order — the batch yields one result
/// per operation, and the i-th result is exactly the i-th operation's
/// outcome over the words left by the operations before it.
pub proof fn lemma_apply_preserves_order(ops: Seq<RegisterOp>, words: Seq<u32>)
    ensures
        apply_all_spec(ops, words).0.len() == ops.len(),
        forall|i: int|
            0 <= i < ops.len() ==> apply_all_spec(ops, words).0[i] == apply_one_spec(
                ops[i],
                apply_all_spec(ops.subrange(0, i), words).1,
            ).0,
    decreases ops.len(),
{
    if ops.len() > 0 {
        let f = apply_one_spec(ops[0], words);
        let t = ops.drop_first();
        lemma_apply_preserves_order(t, f.1);
        assert(ops.subrange(0, 0) =~= Seq::<RegisterOp>::empty());
        assert forall|i: int|
            0 <= i < ops.len() implies apply_all_spec(ops, words).0[i] == apply_one_spec(
            ops[i],
            apply_all_spec(ops.subrange(0, i), words).1,
        ).0 by {
            if i > 0 {
                assert(t[i - 1] == ops[i]);
                assert(t.subrange(0, i - 1) =~= ops.subrange(0, i).drop_first());
                assert(ops.subrange(0, i)[0] == ops[0]);
                assert(apply_all_spec(ops.subrange(0, i), words).1 == apply_all_spec(
                    t.subrange(0, i - 1),
                    f.1,
                ).1);
                assert(apply_all_spec(ops, words).0[i] == apply_all_spec(t, f.1).0[i - 1]);
            }
        }
    }
}

/// The path part of a register spec token: everything before the first
/// '=', or the whole token when it has none.
pub open spec fn token_path(t: Seq<char>) -> Seq<char> {
    if count_char(t, '=') == 0 {
        t
    } else {
        t.subrange(0, index_of_first(t, '='))
    }
}

/// What a register map describes at one path: the fields a dump shows,
/// with the documented defaults for absent ones.
#[derive(Debug)]
pub struct RegisterInfo {
    /// The path asked about (the token with any "=VALUE" stripped).
    pub path: String,
    /// The resolved byte offset, when the node has one.
    pub offset: Option<i64>,
    /// The access kind text; "unspecified" when absent.
    pub read_write: String,
    /// The declared width; 32 when absent.
    pub width: i64,
    /// The bit range text; empty when absent.
    pub bits: String,
    /// The description text; "not given" when absent.
    pub description: String,
}

/// Whether `info` is exactly what the map says about token `t`.
pub open spec fn info_matches(
    nodes: Seq<ConfigNode>,
    root: Seq<char>,
    t: Seq<char>,
    info: RegisterInfo,
) -> bool {
    let p = token_path(t);
    &&& info.path@ == p
    &&& info.offset == cfg_int(nodes, root, p, "offset"@)
    &&& info.read_write@ == (match cfg_str(nodes, root, p, "read-write"@) {
        Some(s) => s,
        None => "unspecified"@,
    })
    &&& info.width == (match cfg_int(nodes, root, p, "width"@) {
        Some(w) => w,
        None => 32int as i64,
    })
    &&& info.bits@ == (match cfg_str(nodes, root, p, "bits"@) {
        Some(s) => s,
        None => Seq::<char>::empty(),
    })
    &&& info.description@ == (match cfg_str(nodes, root, p, "description"@) {
        Some(s) => s,
        None => "not given"@,
    })
}

/// The paths among `toks` whose nodes have no resolvable offset, in
/// order.
pub open spec fn bad_paths(nodes: Seq<ConfigNode>, root: Seq<char>, toks: Seq<Seq<char>>) -> Seq<
    Seq<char>,
>
    decreases toks.len(),
{
    if toks.len() == 0 {
        Seq::empty()
    } else {
        bad_paths(nodes, root, toks.drop_last()) + (if cfg_int(
            nodes,
            root,
            token_path(toks.last()),
            "offset"@,
        ) is None {
            seq![token_path(toks.last())]
        } else {
            Seq::empty()
        })
    }
}

/// Law: a batch that gathers cleanly yields exactly one operation per
/// token, in token order — the i-th gathered operation is the outcome
/// of the i-th spec.
pub proof fn lemma_gather_ok_order(nodes: Seq<ConfigNode>, root: Seq<char>, toks: Seq<Seq<char>>)
    requires
        gather_errs(nodes, root, toks).len() == 0,
    ensures
        gather_ops(nodes, root, toks).len() == toks.len(),
        forall|i: int|
            0 <= i < toks.len() ==> token_outcome(nodes, root, #[trigger] toks[i]) == Ok::<
                RegisterOp,
                RegError,
            >(gather_ops(nodes, root, toks)[i]),
    decreases toks.len(),
{
    if toks.len() > 0 {
        let pre = toks.drop_last();
        assert(gather_errs(nodes, root, pre).len() <= gather_errs(nodes, root, toks).len());
        lemma_gather_ok_order(nodes, root, pre);
        assert(token_outcome(nodes, root, toks.last()) is Ok);
        assert forall|i: int|
            0 <= i < toks.len() implies token_outcome(nodes, root, #[trigger] toks[i]) == Ok::<
            RegisterOp,
            RegError,
        >(gather_ops(nodes, root, toks)[i]) by {
            if i < toks.len() - 1 {
                assert(pre[i] == toks[i]);
                assert(gather_ops(nodes, root, toks)[i] == gather_ops(nodes, root, pre)[i]);
            } else {
                assert(toks[i] == toks.last());
            }
        }
    }
}

/// Law: a batch reports every failing token, not only the first — each
/// token whose outcome is an error appears, with that error, in the
/// gathered error list.
pub proof fn lemma_gather_errs_enumerates(
    nodes: Seq<ConfigNode>,
    root: Seq<char>,
    toks: Seq<Seq<char>>,
    i: int,
)
    requires
        0 <= i < toks.len(),
        token_outcome(nodes, root, toks[i]) is Err,
    ensures
        exists|k: int|
            0 <= k < gather_errs(nodes, root, toks).len() && #[trigger] gather_errs(
                nodes,
                root,
                toks,
            )[k] == (toks[i], token_outcome(nodes, root, toks[i])->Err_0),
    decreases toks.len(),
{
    let es = gather_errs(nodes, root, toks);
    if i == toks.len() - 1 {
        assert(toks.last() == toks[i]);
        assert(es[es.len() - 1] == (toks[i], token_outcome(nodes, root, toks[i])->Err_0));
    } else {
        let pre = toks.drop_last();
        assert(pre[i] == toks[i]);
        lemma_gather_errs_enumerates(nodes, root, pre, i);
        let k = choose|k: int|
            0 <= k < gather_errs(nodes, root, pre).len() && #[trigger] gather_errs(
                nodes,
                root,
                pre,
            )[k] == (pre[i], token_outcome(nodes, root, pre[i])->Err_0);
        assert(es[k] == gather_errs(nodes, root, pre)[k]);
    }
}

/// The register tool: a resolver, the gathered operations, and the
/// memory target they are applied to.
#[derive(Debug)]
pub struct RegisterTool {
    /// The register map and its current resolution root.
    pub resolver: ConfigDoc,
    /// The operations gathered so far, in spec order.
    pub regs: Vec<RegisterOp>,
    /// The bound memory target; `None` until one is bound.  Only the
    /// owned test buffer lives here: a live device mapping needs raw
    /// memory access and is driven outside the verified library.
    pub target: Option<MemoryTarget>,
    /// Device path resolved at construction.
    pub device: String,
    /// Device base address resolved at construction.
    pub base: u64,
    /// Mapping length in bytes resolved at construction.
    pub length: u64,
}

impl RegisterTool {
    /// The tool is in a usable state: the resolver can always be rebased
    /// back, and every gathered operation has a legal shift.
    pub open spec fn wf(&self) -> bool {
        &&& self.resolver.wf()
        &&& forall|i: int| 0 <= i < self.regs@.len() ==> (#[trigger] self.regs@[i]).wf()
    }

    /// Build a tool over a resolver, validating the document's own
    /// device, base, and length fields and reporting every missing one
    /// together rather than failing on the first.
    pub fn new(resolver: ConfigDoc) -> (r: Result<RegisterTool, Vec<GatherError>>)
        requires
            resolver.wf(),
        ensures
            ({
                let dev = cfg_str(resolver.nodes@, resolver.root@, ""@, "device"@);
                let base = cfg_int(resolver.nodes@, resolver.root@, ""@, "base"@);
                let len = cfg_int(resolver.nodes@, resolver.root@, ""@, "length"@);
                match r {
                    Ok(t) => {
                        &&& dev is Some
                        &&& base is Some
                        &&& len is Some
                        &&& t.device@ == dev->0
                        &&& t.base == base->0 as u64
                        &&& t.length == len->0 as u64
                        &&& t.resolver == resolver
                        &&& t.regs@.len() == 0
                        &&& t.target is None
                        &&& t.wf()
                    },
                    Err(es) => {
                        &&& !(dev is Some && base is Some && len is Some)
                        &&& es@.len() == (if dev is None {
                            1int
                        } else {
                            0int
                        }) + (if base is None {
                            1int
                        } else {
                            0int
                        }) + (if len is None {
                            1int
                        } else {
                            0int
                        })
                        &&& forall|i: int|
                            0 <= i < es@.len() ==> (#[trigger] es@[i]).kind
                                == RegError::ConfigFieldMissing
                        &&& (dev is None ==> es@[0].subject@ == "device"@)
                        &&& (base is None ==> es@[if dev is None {
                            1int
                        } else {
                            0int
                        }].subject@ == "base"@)
                        &&& (len is None ==> es@[es@.len() - 1].subject@ == "length"@)
                    },
                }
            }),
    {
        let mut errs: Vec<GatherError> = Vec::new();
        let device = match resolver.get_string_field_or_parent("", "device") {
            Ok(d) => d,
            Err(_) => {
                errs.push(
                    GatherError {
                        subject: String::from_str("device"),
                        kind: RegError::ConfigFieldMissing,
                    },
                );
                String::new()
            },
        };
        let base = match resolver.get_int_field_or_parent("", "base") {
            Ok(b) => b,
            Err(_) => {
                errs.push(
                    GatherError {
                        subject: String::from_str("base"),
                        kind: RegError::ConfigFieldMissing,
                    },
                );
                0
            },
        };
        let length = match resolver.get_int_field_or_parent("", "length") {
            Ok(l) => l,
            Err(_) => {
                errs.push(
                    GatherError {
                        subject: String::from_str("length"),
                        kind: RegError::ConfigFieldMissing,
                    },
                );
                0
            },
        };
        if errs.len() > 0 {
            return Err(errs);
        }
        Ok(
            RegisterTool {
                resolver,
                regs: Vec::new(),
                target: None,
                device,
                base: base as u64,
                length: length as u64,
            },
        )
    }

    /// Bind a zero-filled in-memory test buffer of the configured
    /// length as the memory target.  Test mode never touches a device.
    pub fn set_test_area(&mut self)
        requires
            old(self).length / 4 <= usize::MAX as u64,
        ensures
            final(self).resolver == old(self).resolver,
            final(self).regs == old(self).regs,
            final(self).device == old(self).device,
            final(self).base == old(self).base,
            final(self).length == old(self).length,
            final(self).target is Some,
            final(self).target->0@.len() == old(self).length as int / 4,
            forall|i: int|
                0 <= i < final(self).target->0@.len() ==> final(self).target->0@[i] == 0,
            old(self).wf() ==> final(self).wf(),
    {
        let t = MemoryTarget::test(self.length);
        self.target = Some(t);
    }

    /// Look up what the map says about each named register: offset,
    /// access kind, width, bits, and description, with the documented
    /// defaults for absent fields.  The second list names every path
    /// with no resolvable offset — all of them, not only the first.
    /// Resolution is rebased and restored exactly as in `gather_regs`;
    /// only a failed rebase fails the call.
    pub fn describe_registers(&mut self, reg_paths: &Vec<&str>) -> (r: Result<
        (Vec<RegisterInfo>, Vec<String>),
        GatherError,
    >)
        requires
            old(self).wf(),
        ensures
            final(self).device == old(self).device,
            final(self).base == old(self).base,
            final(self).length == old(self).length,
            final(self).target == old(self).target,
            final(self).regs == old(self).regs,
            final(self).resolver.nodes@ == old(self).resolver.nodes@,
            final(self).wf(),
            ({
                let nodes = old(self).resolver.nodes@;
                let oroot = old(self).resolver.root@;
                let meta = cfg_str(nodes, oroot, "completion-metadata"@, "root"@);
                let toks = reg_paths@.map_values(|t: &str| t@);
                if meta is Some && meta->0.len() != 0 && !subtree_exists(nodes, meta->0) {
                    &&& r is Err
                    &&& r->Err_0.subject@ == meta->0
                    &&& r->Err_0.kind == RegError::RootNotFound
                    &&& final(self).resolver.root@ == oroot
                } else {
                    let gr = if meta is Some {
                        meta->0
                    } else {
                        oroot
                    };
                    &&& r is Ok
                    &&& r->Ok_0.0@.len() == toks.len()
                    &&& forall|k: int|
                        0 <= k < toks.len() ==> info_matches(
                            nodes,
                            gr,
                            toks[k],
                            #[trigger] r->Ok_0.0@[k],
                        )
                    &&& r->Ok_0.1@.len() == bad_paths(nodes, gr, toks).len()
                    &&& forall|k: int|
                        0 <= k < r->Ok_0.1@.len() ==> (#[trigger] r->Ok_0.1@[k])@ == bad_paths(
                            nodes,
                            gr,
                            toks,
                        )[k]
                    &&& final(self).resolver.root@ == (if meta is Some {
                        oroot
                    } else {
                        Seq::<char>::empty()
                    })
                }
            }),
    {
        let ghost nodes = self.resolver.nodes@;
        let ghost oroot = self.resolver.root@;
        let ghost toks = reg_paths@.map_values(|t: &str| t@);
        let old_root: String = match self.resolver.get_string_field_or_parent(
            "completion-metadata",
            "root",
        ) {
            Ok(m) => match self.resolver.set_root(m.as_str()) {
                Ok(prev) => prev,
                Err(e) => {
                    return Err(GatherError { subject: m, kind: e });
                },
            },
            Err(_) => String::new(),
        };
        let ghost gr = self.resolver.root@;
        let mut infos: Vec<RegisterInfo> = Vec::new();
        let mut bad: Vec<String> = Vec::new();
        let mut i: usize = 0;
        proof {
            assert(toks.subrange(0, 0) =~= Seq::<Seq<char>>::empty());
        }
        while i < reg_paths.len()
            invariant
                i <= reg_paths@.len(),
                toks == reg_paths@.map_values(|t: &str| t@),
                toks.len() == reg_paths@.len(),
                self.resolver.nodes@ == nodes,
                self.resolver.root@ == gr,
                self.resolver.wf(),
                old(self).wf(),
                old_root@.len() == 0 || subtree_exists(nodes, old_root@),
                self.device == old(self).device,
                self.base == old(self).base,
                self.length == old(self).length,
                self.target == old(self).target,
                self.regs == old(self).regs,
                infos@.len() == i,
                forall|k: int|
                    0 <= k < i ==> info_matches(nodes, gr, toks[k], #[trigger] infos@[k]),
                bad@.len() == bad_paths(nodes, gr, toks.subrange(0, i as int)).len(),
                forall|k: int|
                    0 <= k < bad@.len() ==> (#[trigger] bad@[k])@ == bad_paths(
                        nodes,
                        gr,
                        toks.subrange(0, i as int),
                    )[k],
            decreases reg_paths@.len() - i,
        {
            let token: &str = reg_paths[i];
            proof {
                assert(toks[i as int] == token@);
                lemma_count_char_zero(token@, '=');
                lemma_index_of_first(token@, '=');
            }
            let path_part: &str = match find_first(token, '=') {
                Some(p) => {
                    proof {
                        assert(index_of_first(token@, '=') == p);
                        assert(token@[p as int] == '=');
                        assert(count_char(token@, '=') != 0);
                    }
                    token.substring_char(0, p)
                },
                None => {
                    proof {
                        assert(index_of_first(token@, '=') == -1);
                        assert(count_char(token@, '=') == 0);
                    }
                    token
                },
            };
            let offset = match self.resolver.get_int_field_or_parent(path_part, "offset") {
                Ok(o) => Some(o),
                Err(_) => None,
            };
            let read_write = match self.resolver.get_string_field_or_parent(
                path_part,
                "read-write",
            ) {
                Ok(s) => s,
                Err(_) => String::from_str("unspecified"),
            };
            let width = match self.resolver.get_int_field_or_parent(path_part, "width") {
                Ok(w) => w,
                Err(_) => 32,
            };
            let bits = match self.resolver.get_string_field_or_parent(path_part, "bits") {
                Ok(s) => s,
                Err(_) => String::new(),
            };
            let description = match self.resolver.get_string_field_or_parent(
                path_part,
                "description",
            ) {
                Ok(s) => s,
                Err(_) => String::from_str("not given"),
            };
            let missing = offset.is_none();
            infos.push(
                RegisterInfo {
                    path: path_part.to_owned(),
                    offset,
                    read_write,
                    width,
                    bits,
                    description,
                },
            );
            if missing {
                bad.push(path_part.to_owned());
            }
            proof {
                let pre = toks.subrange(0, i as int);
                let post = toks.subrange(0, i + 1);
                assert(post.drop_last() =~= pre);
                assert(post.last() == toks[i as int]);
                assert(path_part@ == token_path(toks[i as int]));
                assert(bad@.len() == bad_paths(nodes, gr, post).len());
            }
            i += 1;
        }
        proof {
            assert(toks.subrange(0, toks.len() as int) =~= toks);
        }
        match self.resolver.set_root(old_root.as_str()) {
            Ok(_) => {},
            Err(e) => {
                return Err(GatherError { subject: old_root, kind: e });
            },
        }
        Ok((infos, bad))
    }

    /// Gather the register operations a batch of spec tokens names.
    ///
    /// Each token is "PATH" (read) or "PATH=VALUE" (write).  Resolution
    /// is rebased under the subtree the document's completion metadata
    /// names, and the previous root is restored on the way out.  Every
    /// failing token contributes its own error; the batch succeeds only
    /// when no token failed.
    pub fn gather_regs(&mut self, regspecs: &Vec<&str>) -> (r: Result<(), Vec<GatherError>>)
        requires
            old(self).wf(),
        ensures
            final(self).device == old(self).device,
            final(self).base == old(self).base,
            final(self).length == old(self).length,
            final(self).target == old(self).target,
            final(self).resolver.nodes@ == old(self).resolver.nodes@,
            final(self).wf(),
            ({
                let nodes = old(self).resolver.nodes@;
                let oroot = old(self).resolver.root@;
                let meta = cfg_str(nodes, oroot, "completion-metadata"@, "root"@);
                let toks = regspecs@.map_values(|t: &str| t@);
                if meta is Some && meta->0.len() != 0 && !subtree_exists(nodes, meta->0) {
                    &&& r is Err
                    &&& r->Err_0@.len() == 1
                    &&& r->Err_0@[0].subject@ == meta->0
                    &&& r->Err_0@[0].kind == RegError::RootNotFound
                    &&& final(self).regs@ == old(self).regs@
                    &&& final(self).resolver.root@ == oroot
                } else {
                    let gr = if meta is Some {
                        meta->0
                    } else {
                        oroot
                    };
                    let errs = gather_errs(nodes, gr, toks);
                    &&& final(self).regs@ == old(self).regs@ + gather_ops(nodes, gr, toks)
                    &&& final(self).resolver.root@ == (if meta is Some {
                        oroot
                    } else {
                        Seq::<char>::empty()
                    })
                    &&& (if errs.len() == 0 {
                        r is Ok
                    } else {
                        &&& r is Err
                        &&& r->Err_0@.len() == errs.len()
                        &&& forall|k: int|
                            0 <= k < errs.len() ==> (#[trigger] r->Err_0@[k]).subject@
                                == errs[k].0 && r->Err_0@[k].kind == errs[k].1
                    })
                }
            }),
    {
        let ghost nodes = self.resolver.nodes@;
        let ghost oroot = self.resolver.root@;
        let ghost toks = regspecs@.map_values(|t: &str| t@);
        let old_root: String = match self.resolver.get_string_field_or_parent(
            "completion-metadata",
            "root",
        ) {
            Ok(m) => match self.resolver.set_root(m.as_str()) {
                Ok(prev) => prev,
                Err(e) => {
                    let mut es: Vec<GatherError> = Vec::new();
                    es.push(GatherError { subject: m, kind: e });
                    return Err(es);
                },
            },
            Err(_) => String::new(),
        };
        let ghost gr = self.resolver.root@;
        let mut errs: Vec<GatherError> = Vec::new();
        let mut i: usize = 0;
        proof {
            assert(toks.subrange(0, 0) =~= Seq::<Seq<char>>::empty());
            assert(self.regs@ =~= old(self).regs@ + gather_ops(nodes, gr, toks.subrange(0, 0)));
        }
        while i < regspecs.len()
            invariant
                i <= regspecs@.len(),
                toks == regspecs@.map_values(|t: &str| t@),
                toks.len() == regspecs@.len(),
                self.resolver.nodes@ == nodes,
                self.resolver.root@ == gr,
                self.resolver.wf(),
                old(self).wf(),
                old_root@.len() == 0 || subtree_exists(nodes, old_root@),
                self.device == old(self).device,
                self.base == old(self).base,
                self.length == old(self).length,
                self.target == old(self).target,
                self.regs@ == old(self).regs@ + gather_ops(nodes, gr, toks.subrange(0, i as int)),
                forall|k: int| 0 <= k < self.regs@.len() ==> (#[trigger] self.regs@[k]).wf(),
                errs@.len() == gather_errs(nodes, gr, toks.subrange(0, i as int)).len(),
                forall|k: int|
                    0 <= k < errs@.len() ==> (#[trigger] errs@[k]).subject@ == gather_errs(
                        nodes,
                        gr,
                        toks.subrange(0, i as int),
                    )[k].0 && errs@[k].kind == gather_errs(
                        nodes,
                        gr,
                        toks.subrange(0, i as int),
                    )[k].1,
            decreases regspecs@.len() - i,
        {
            let token: &str = regspecs[i];
            proof {
                assert(toks[i as int] == token@);
            }
            let eqs = count_occurrences(token, '=');
            if eqs >= 2 {
                errs.push(GatherError { subject: token.to_owned(), kind: RegError::BadArgument });
            } else if eqs == 1 {
                let pos = match find_first(token, '=') {
                    Some(p) => p,
                    None => {
                        proof {
                            lemma_count_char_zero(token@, '=');
                            lemma_index_of_first(token@, '=');
                            assert(false);
                        }
                        0
                    },
                };
                proof {
                    lemma_index_of_first(token@, '=');
                }
                let tlen = token.unicode_len();
                let val_part = token.substring_char(pos + 1, tlen);
                match parse_u32(val_part) {
                    None => {
                        errs.push(
                            GatherError { subject: token.to_owned(), kind: RegError::BadArgument },
                        );
                    },
                    Some(v) => {
                        let path_part = token.substring_char(0, pos);
                        match RegisterOp::new(&self.resolver, Some(v), path_part) {
                            Ok(op) => {
                                self.regs.push(op);
                            },
                            Err(e) => {
                                errs.push(GatherError { subject: token.to_owned(), kind: e });
                            },
                        }
                    },
                }
            } else {
                match RegisterOp::new(&self.resolver, None, token) {
                    Ok(op) => {
                        self.regs.push(op);
                    },
                    Err(e) => {
                        errs.push(GatherError { subject: token.to_owned(), kind: e });
                    },
                }
            }
            proof {
                let pre = toks.subrange(0, i as int);
                let post = toks.subrange(0, i + 1);
                assert(post.drop_last() =~= pre);
                assert(post.last() == toks[i as int]);
                assert(self.regs@ =~= old(self).regs@ + gather_ops(nodes, gr, post));
                assert(errs@.len() == gather_errs(nodes, gr, post).len());
            }
            i += 1;
        }
        proof {
            assert(toks.subrange(0, toks.len() as int) =~= toks);
        }
        match self.resolver.set_root(old_root.as_str()) {
            Ok(_) => {},
            Err(_) => {
                errs.push(GatherError { subject: old_root, kind: RegError::RootNotFound });
            },
        }
        if errs.len() > 0 {
            Err(errs)
        } else {
            Ok(())
        }
    }

    /// Apply every gathered operation in order against the bound
    /// target.  Result `i` belongs to operation `i`; a per-register
    /// failure fills that slot and never aborts the rest.  Fails as a
    /// whole only when no target is bound.
    pub fn apply_registers(&mut self) -> (r: Result<Vec<Result<u32, RegError>>, RegError>)
        requires
            old(self).wf(),
        ensures
            final(self).resolver == old(self).resolver,
            final(self).regs == old(self).regs,
            final(self).device == old(self).device,
            final(self).base == old(self).base,
            final(self).length == old(self).length,
            final(self).wf(),
            match old(self).target {
                None => r == Err::<Vec<Result<u32, RegError>>, RegError>(RegError::Unbound)
                    && final(self).target is None,
                Some(m) => {
                    &&& r is Ok
                    &&& r->Ok_0@ == apply_all_spec(old(self).regs@, m@).0
                    &&& final(self).target is Some
                    &&& final(self).target->0@ == apply_all_spec(old(self).regs@, m@).1
                },
            },
    {
        let mut m = match self.target.take() {
            None => {
                return Err(RegError::Unbound);
            },
            Some(m) => m,
        };
        let mut results: Vec<Result<u32, RegError>> = Vec::new();
        let mut i: usize = 0;
        proof {
            assert(self.regs@.subrange(0, 0) =~= Seq::<RegisterOp>::empty());
        }
        while i < self.regs.len()
            invariant
                i <= self.regs@.len(),
                self.resolver == old(self).resolver,
                self.regs == old(self).regs,
                self.device == old(self).device,
                self.base == old(self).base,
                self.length == old(self).length,
                self.target is None,
                old(self).target is Some,
                old(self).wf(),
                results@.len() == i,
                results@ == apply_all_spec(
                    self.regs@.subrange(0, i as int),
                    old(self).target->0@,
                ).0,
                m@ == apply_all_spec(self.regs@.subrange(0, i as int), old(self).target->0@).1,
            decreases self.regs@.len() - i,
        {
            let op = self.regs[i];
            let res = if op.value.is_none() {
                op.get(&m)
            } else {
                op.set(&mut m)
            };
            results.push(res);
            proof {
                lemma_apply_all_snoc(
                    self.regs@.subrange(0, i as int),
                    op,
                    old(self).target->0@,
                );
                assert(self.regs@.subrange(0, i as int).push(op) =~= self.regs@.subrange(
                    0,
                    i + 1,
                ));
            }
            i += 1;
        }
        proof {
            assert(self.regs@.subrange(0, self.regs@.len() as int) =~= self.regs@);
        }
        self.target = Some(m);
        Ok(results)
    }
}

} // verus!
