use vstd::prelude::*;
use crate::live_document::LiveDocument;
use crate::live_error::LiveError;
use crate::live_id::LiveId;
use crate::live_ptr::LiveFileId;
use crate::live_registry::LiveRegistry;
use crate::module_table::{find_module, lemma_position, lookup};

verus! {

/// A document like the given one that is not stale.
pub open spec fn fresh_document(document: LiveDocument) -> LiveDocument {
    LiveDocument {
        nodes: document.nodes,
        strings: document.strings,
        tokens: document.tokens,
        recompile: false,
    }
}

/// Whether two registries differ at most in their expanded documents, of
/// which they hold equally many.
pub open spec fn same_but_expanded(first: LiveRegistry, second: LiveRegistry) -> bool {
    &&& first.module_id_to_file_id == second.module_id_to_file_id
    &&& first.live_files == second.live_files
    &&& first.live_type_infos == second.live_type_infos
    &&& first.dep_order == second.dep_order
    &&& first.dep_graph == second.dep_graph
    &&& first.expanded@.len() == second.expanded@.len()
}

/// Whether a document is what an expansion starts from: no nodes yet, and
/// the strings and tokens of the unexpanded document.
pub open spec fn restarted_from(fed: LiveDocument, raw: LiveDocument) -> bool {
    &&& fed.nodes@.len() == 0
    &&& fed.strings@ == raw.strings@
    &&& fed.tokens@ == raw.tokens@
}

/// Whether the registry `during` is what the expansion asked for by entry
/// `at` of the order sees, on the way from `before` to `after`: the file's
/// own slot holds a blank document, the documents expanded for earlier
/// entries are as they stay, and all others are as they were.
pub open spec fn seen_at(before: LiveRegistry, after: LiveRegistry, during: LiveRegistry, at: int, file: int) -> bool {
    &&& same_but_expanded(before, during)
    &&& during.expanded@[file].is_blank()
    &&& during.expanded@[file].recompile
    &&& forall|other: int|
        0 <= other < before.expanded@.len() && other != file ==> #[trigger] during.expanded@[other]
            == if before.expands_before(at, other) {
            after.expanded@[other]
        } else {
            before.expanded@[other]
        }
}

/// Whether `expand` can be called with what a pass from `before` hands it:
/// a well-formed registry that differs from `before` at most in its
/// expanded documents and holds a blank stale one for the file, the crate
/// of the module of an entry that asks for the file, the file and its
/// unexpanded document, and a stale document restarted from that one.
pub open spec fn expander_takes_steps<F>(before: LiveRegistry, expand: F) -> bool where
    F: Fn(&LiveRegistry, LiveId, LiveFileId, &LiveDocument, LiveDocument) -> (LiveDocument, Vec<LiveError>),
 {
    forall|registry: &LiveRegistry, at: int, file_id: LiveFileId, fed: LiveDocument|
        {
            &&& registry.wf()
            &&& same_but_expanded(before, *registry)
            &&& 0 <= at < before.dep_order@.len()
            &&& before.stale_at(at) == Some(file_id)
            &&& registry.expanded@[file_id.0 as int].is_blank()
            &&& registry.expanded@[file_id.0 as int].recompile
            &&& restarted_from(fed, before.live_files@[file_id.0 as int].document)
            &&& fed.recompile
        } ==> #[trigger] expand.requires(
            (
                registry,
                before.dep_order@[at].0.0,
                file_id,
                &before.live_files@[file_id.0 as int].document,
                fed,
            ),
        )
}

/// One expansion of a pass over the order: the entry that asked for it, the
/// file, the registry that the expansion saw, the document it started from,
/// and what came back.
pub struct Expansion {
    pub at: int,
    pub file: int,
    pub during: LiveRegistry,
    pub fed: LiveDocument,
    pub out: (LiveDocument, Vec<LiveError>),
}

/// Whether `step` is an expansion of the pass from `before` to `after`: its
/// entry is the first of the order that asks for its file, and `expand`,
/// given the registry as it was by then, the crate of the entry's module,
/// the file, its unexpanded document and a stale document restarted from
/// that one, returned the document that `after` holds for the file, up to
/// date.
pub open spec fn expansion_ok<F>(before: LiveRegistry, after: LiveRegistry, step: Expansion, expand: F) -> bool where
    F: Fn(&LiveRegistry, LiveId, LiveFileId, &LiveDocument, LiveDocument) -> (LiveDocument, Vec<LiveError>),
 {
    &&& 0 <= step.file < before.expanded@.len()
    &&& 0 <= step.at < before.dep_order@.len()
    &&& before.stale_at(step.at) == Some(LiveFileId(step.file as u16))
    &&& !before.expands_before(step.at, step.file)
    &&& seen_at(before, after, step.during, step.at, step.file)
    &&& restarted_from(step.fed, before.live_files@[step.file].document)
    &&& step.fed.recompile
    &&& expand.ensures(
        (
            &step.during,
            before.dep_order@[step.at].0.0,
            LiveFileId(step.file as u16),
            &before.live_files@[step.file].document,
            step.fed,
        ),
        step.out,
    )
    &&& after.expanded@[step.file] == fresh_document(step.out.0)
}

/// The errors that the expansions of a pass returned, in the order of the
/// expansions.
pub open spec fn found_errors(steps: Seq<Expansion>) -> Seq<LiveError>
    decreases steps.len(),
{
    if steps.len() == 0 {
        Seq::empty()
    } else {
        found_errors(steps.drop_last()) + steps.last().out.1@
    }
}

/// Whether `steps` are the expansions of the pass from `before` to `after`,
/// in the order in which they were made: each is an expansion of the pass,
/// they follow the order of the entries, and every file that an entry asks
/// for has one.
pub open spec fn pass_ok<F>(before: LiveRegistry, after: LiveRegistry, steps: Seq<Expansion>, expand: F) -> bool where
    F: Fn(&LiveRegistry, LiveId, LiveFileId, &LiveDocument, LiveDocument) -> (LiveDocument, Vec<LiveError>),
 {
    &&& forall|i: int| 0 <= i < steps.len() ==> expansion_ok(before, after, #[trigger] steps[i], expand)
    &&& forall|i: int, j: int| 0 <= i < j < steps.len() ==> (#[trigger] steps[i]).at < (#[trigger] steps[j]).at
    &&& forall|file: int|
        0 <= file < before.expanded@.len() && #[trigger] before.expands(file) ==> exists|i: int|
            0 <= i < steps.len() && (#[trigger] steps[i]).file == file
}

impl LiveRegistry {
    /// The file to expand for entry `at` of the order: the file that holds
    /// the entry's module, if there is one and its expanded document is
    /// stale.
    pub open spec fn stale_at(&self, at: int) -> Option<LiveFileId> {
        match lookup(self.module_id_to_file_id@, self.dep_order@[at].0) {
            Some(file_id) => if file_id.0 < self.expanded@.len() && self.expanded@[file_id.0 as int].recompile {
                Some(file_id)
            } else {
                None
            },
            None => None,
        }
    }

    /// The first entry of the order at or after `from` that has a file to
    /// expand, with that file.
    pub open spec fn next_stale_from(&self, from: int) -> Option<(usize, LiveFileId)>
        decreases self.dep_order@.len() - from,
    {
        if from < 0 || from >= self.dep_order@.len() {
            None
        } else {
            match self.stale_at(from) {
                Some(file_id) => Some((from as usize, file_id)),
                None => self.next_stale_from(from + 1),
            }
        }
    }

    /// Whether some entry of the order before entry `end` asks for the
    /// expansion of the file at index `file`.
    pub open spec fn expands_before(&self, end: int, file: int) -> bool {
        exists|at: int| 0 <= at < end && #[trigger] self.stale_at(at) == Some(LiveFileId(file as u16))
    }

    /// Whether some entry of the order asks for the expansion of the file
    /// at index `file`.
    pub open spec fn expands(&self, file: int) -> bool {
        exists|at: int| 0 <= at < self.dep_order@.len() && #[trigger] self.stale_at(at) == Some(LiveFileId(file as u16))
    }

    /// Finds the next module in dependency order, from entry `from` on,
    /// whose file has a stale expanded document. Modules that no file holds
    /// yet are passed over.
    pub fn next_stale(&self, from: usize) -> (r: Option<(usize, LiveFileId)>)
        ensures
            r == self.next_stale_from(from as int),
            r matches Some(found) ==> from <= found.0 < self.dep_order@.len() && self.stale_at(found.0 as int) == Some(
                found.1,
            ),
    {
        let mut at: usize = from;
        while at < self.dep_order.len()
            invariant
                from <= at,
                self.next_stale_from(at as int) == self.next_stale_from(from as int),
            decreases self.dep_order@.len() - at,
        {
            match find_module(&self.module_id_to_file_id, self.dep_order[at].0) {
                Some(index) => {
                    let file_id = self.module_id_to_file_id[index].1;
                    if file_id.to_index() < self.expanded.len() && self.expanded[file_id.to_index()].recompile {
                        return Some((at, file_id));
                    }
                },
                None => {},
            }
            at += 1;
        }
        None
    }

    /// Takes the stale expanded document of a file out of the registry,
    /// emptied and with the strings and tokens of the file's unexpanded
    /// document, and leaves a blank one in its place.
    pub fn take_stale(&mut self, file_id: LiveFileId) -> (r: LiveDocument)
        requires
            old(self).wf(),
            file_id.0 < old(self).expanded@.len(),
        ensures
            final(self).wf(),
            same_but_expanded(*old(self), *final(self)),
            forall|file: int|
                0 <= file < old(self).expanded@.len() && file != file_id.0 ==> #[trigger] final(self).expanded@[file]
                    == old(self).expanded@[file],
            final(self).expanded@[file_id.0 as int].is_blank(),
            final(self).expanded@[file_id.0 as int].recompile,
            restarted_from(r, old(self).live_files@[file_id.0 as int].document),
            r.recompile == old(self).expanded@[file_id.0 as int].recompile,
    {
        let mut out_doc = LiveDocument::new();
        std::mem::swap(&mut out_doc, &mut self.expanded[file_id.to_index()]);
        out_doc.restart_from(&self.live_files[file_id.to_index()].document);
        out_doc
    }

    /// Puts an expanded document into the slot of its file and marks it as
    /// up to date.
    pub fn put_expanded(&mut self, file_id: LiveFileId, document: LiveDocument)
        requires
            old(self).wf(),
            file_id.0 < old(self).expanded@.len(),
        ensures
            final(self).wf(),
            same_but_expanded(*old(self), *final(self)),
            forall|file: int|
                0 <= file < old(self).expanded@.len() && file != file_id.0 ==> #[trigger] final(self).expanded@[file]
                    == old(self).expanded@[file],
            final(self).expanded@[file_id.0 as int] == fresh_document(document),
    {
        let mut document = document;
        document.recompile = false;
        std::mem::swap(&mut document, &mut self.expanded[file_id.to_index()]);
    }

    /// Expands every stale document, dependencies first. The order is gone
    /// through once; a module that no file holds yet is passed over, and so
    /// is one whose expanded document is up to date. For each of the others
    /// `expand` is given the registry, the module's crate, the file, its
    /// unexpanded document and a document restarted from it, and returns
    /// the expanded document and the errors it found; these join `errors`.
    /// Of `expand` it is asked only that it takes what it is handed here.
    pub fn expand_all_documents<F>(&mut self, errors: &mut Vec<LiveError>, expand: F) where
        F: Fn(&LiveRegistry, LiveId, LiveFileId, &LiveDocument, LiveDocument) -> (LiveDocument, Vec<LiveError>),

        requires
            old(self).wf(),
            expander_takes_steps(*old(self), expand),
        ensures
            final(self).wf(),
            same_but_expanded(*old(self), *final(self)),
            forall|file: int|
                0 <= file < old(self).expanded@.len() && !(#[trigger] old(self).expands(file))
                    ==> final(self).expanded@[file] == old(self).expanded@[file],
            exists|steps: Seq<Expansion>| #[trigger]
                pass_ok(*old(self), *final(self), steps, expand) && final(errors)@ == old(errors)@ + found_errors(
                    steps,
                ),
    {
        let ghost mut steps: Seq<Expansion> = Seq::empty();
        let mut at: usize = 0;
        proof {
            assert(errors@ =~= old(errors)@ + found_errors(steps));
        }
        while at < self.dep_order.len()
            invariant
                old(self).wf(),
                self.wf(),
                same_but_expanded(*old(self), *self),
                at <= self.dep_order@.len(),
                expander_takes_steps(*old(self), expand),
                forall|i: int|
                    0 <= i < steps.len() ==> expansion_ok(*old(self), *self, #[trigger] steps[i], expand)
                        && steps[i].at < at,
                forall|i: int, j: int| 0 <= i < j < steps.len() ==> (#[trigger] steps[i]).at < (#[trigger] steps[j]).at,
                forall|file: int|
                    0 <= file < old(self).expanded@.len() ==> if #[trigger] old(self).expands_before(
                        at as int,
                        file,
                    ) {
                        exists|i: int| 0 <= i < steps.len() && (#[trigger] steps[i]).file == file
                    } else {
                        self.expanded@[file] == old(self).expanded@[file]
                    },
                errors@ == old(errors)@ + found_errors(steps),
            decreases self.dep_order@.len() - at,
        {
            let module_id = self.dep_order[at].0;
            let ghost earlier = *self;
            proof {
                lemma_position(self.module_id_to_file_id@, module_id);
            }
            match find_module(&self.module_id_to_file_id, module_id) {
                Some(index) => {
                    let file_id = self.module_id_to_file_id[index].1;
                    let ghost file = file_id.0 as int;
                    assert(LiveFileId(file as u16) == file_id);
                    if self.expanded[file_id.to_index()].recompile {
                        proof {
                            if old(self).expands_before(at as int, file) {
                                let i = choose|i: int| 0 <= i < steps.len() && (#[trigger] steps[i]).file == file;
                                assert(expansion_ok(*old(self), *self, steps[i], expand));
                            }
                        }
                        assert(!old(self).expands_before(at as int, file));
                        assert(old(self).stale_at(at as int) == Some(file_id));
                        let out_doc = self.take_stale(file_id);
                        let ghost during = *self;
                        let ghost fed = out_doc;
                        let out = expand(
                            &*self,
                            module_id.0,
                            file_id,
                            &self.live_files[file_id.to_index()].document,
                            out_doc,
                        );
                        let ghost step = Expansion { at: at as int, file, during, fed, out };
                        let (document, mut found) = out;
                        let ghost found_view = found@;
                        errors.append(&mut found);
                        self.put_expanded(file_id, document);
                        proof {
                            assert forall|other: int|
                                0 <= other < old(self).expanded@.len() && other != file implies self.expanded@[other]
                                == earlier.expanded@[other] && #[trigger] old(self).expands_before(at + 1, other)
                                == old(self).expands_before(at as int, other) by {
                                assert(old(self).stale_at(at as int) != Some(LiveFileId(other as u16)));
                            }
                            assert(seen_at(*old(self), *self, during, at as int, file));
                            assert(expansion_ok(*old(self), *self, step, expand));
                            let longer = steps.push(step);
                            assert forall|i: int| 0 <= i < longer.len() implies expansion_ok(
                                *old(self),
                                *self,
                                #[trigger] longer[i],
                                expand,
                            ) && longer[i].at < at + 1 by {
                                if i < steps.len() {
                                    assert(longer[i] == steps[i]);
                                    lemma_expansion_stays(*old(self), earlier, *self, steps[i], file, at as int, expand);
                                }
                            }
                            assert forall|i: int, j: int| 0 <= i < j < longer.len() implies (#[trigger] longer[i]).at
                                < (#[trigger] longer[j]).at by {
                                assert(longer[i] == steps[i]);
                                if j < steps.len() {
                                    assert(longer[j] == steps[j]);
                                }
                            }
                            assert forall|other: int| 0 <= other < old(self).expanded@.len() implies if #[trigger] old(
                                self,
                            ).expands_before(at + 1, other) {
                                exists|i: int| 0 <= i < longer.len() && (#[trigger] longer[i]).file == other
                            } else {
                                self.expanded@[other] == old(self).expanded@[other]
                            } by {
                                if other == file {
                                    assert(longer[steps.len() as int].file == other);
                                } else if old(self).expands_before(at as int, other) {
                                    let i = choose|i: int| 0 <= i < steps.len() && (#[trigger] steps[i]).file == other;
                                    assert(longer[i].file == other);
                                }
                            }
                            assert(longer.drop_last() == steps);
                            assert(errors@ =~= old(errors)@ + found_errors(longer));
                            steps = longer;
                        }
                    } else {
                        proof {
                            assert forall|other: int| 0 <= other < old(self).expanded@.len() implies #[trigger] old(
                                self,
                            ).expands_before(at + 1, other) == old(self).expands_before(at as int, other) by {
                                if old(self).stale_at(at as int) == Some(LiveFileId(other as u16)) {
                                    assert(other == file);
                                }
                            }
                        }
                    }
                },
                None => {
                    proof {
                        assert(old(self).stale_at(at as int) is None);
                        assert forall|other: int| 0 <= other < old(self).expanded@.len() implies #[trigger] old(
                            self,
                        ).expands_before(at + 1, other) == old(self).expands_before(at as int, other) by {}
                    }
                },
            }
            at += 1;
        }
        proof {
            assert forall|file: int| 0 <= file < old(self).expanded@.len() implies #[trigger] old(self).expands(file)
                == old(self).expands_before(at as int, file) by {}
            assert(pass_ok(*old(self), *self, steps, expand));
        }
    }
}

/// An expansion that was made stays made when another file is expanded
/// later: a step of the pass to `earlier` is a step of the pass to `later`,
/// where `later` differs from `earlier` only in the document of a file
/// `changed` that no entry before entry `now` asks for, and the step's own
/// entry comes before `now`.
proof fn lemma_expansion_stays<F>(
    before: LiveRegistry,
    earlier: LiveRegistry,
    later: LiveRegistry,
    step: Expansion,
    changed: int,
    now: int,
    expand: F,
) where F: Fn(&LiveRegistry, LiveId, LiveFileId, &LiveDocument, LiveDocument) -> (LiveDocument, Vec<LiveError>)
    requires
        expansion_ok(before, earlier, step, expand),
        step.at < now,
        0 <= changed < before.expanded@.len(),
        !before.expands_before(now, changed),
        forall|other: int|
            0 <= other < before.expanded@.len() && other != changed ==> #[trigger] later.expanded@[other]
                == earlier.expanded@[other],
    ensures
        expansion_ok(before, later, step, expand),
{
    assert(step.file != changed) by {
        if step.file == changed {
            assert(0 <= step.at < now && before.stale_at(step.at) == Some(LiveFileId(changed as u16)));
        }
    }
    assert(!before.expands_before(step.at, changed)) by {
        if before.expands_before(step.at, changed) {
            let k = choose|k: int|
                0 <= k < step.at && #[trigger] before.stale_at(k) == Some(LiveFileId(changed as u16));
            assert(0 <= k < now && before.stale_at(k) == Some(LiveFileId(changed as u16)));
        }
    }
    assert forall|other: int|
        0 <= other < before.expanded@.len() && other != step.file implies #[trigger] step.during.expanded@[other]
        == if before.expands_before(step.at, other) {
        later.expanded@[other]
    } else {
        before.expanded@[other]
    } by {
        if other != changed {
            assert(later.expanded@[other] == earlier.expanded@[other]);
        }
    }
    assert(later.expanded@[step.file] == earlier.expanded@[step.file]);
}

} // verus!
