use vstd::prelude::*;
use vstd::string::StringExecFns;
use crate::dep_order::{lemma_repaired_positions, position_after_repair, repair_order, repaired};
use crate::live_document::LiveDocument;
use crate::live_error::{LiveError, LiveFileError};
use crate::live_id::LiveId;
use crate::live_node::{LiveNode, LiveTypeInfo};
use crate::live_ptr::{LiveFileId, LiveModuleId, LivePtr};
use crate::live_token::{Fragment, TokenId, TokenWithSpan};
use crate::module_table::{distinct_modules, find_module, has_module, lookup, position};
use crate::span::{Span, TextPos};
use crate::tokenizer::{fits_positions, lexer_takes_lines, lexing_of, tokenize, tokenized_by};
use crate::type_table::distinct_types;

verus! {

/// One registered source file with its unexpanded document.
#[derive(Debug)]
pub struct LiveFile {
    pub module_id: LiveModuleId,
    pub start_pos: TextPos,
    pub file_name: String,
    pub source: String,
    pub document: LiveDocument,
}

/// The state of one compilation session. Files and expanded documents stand
/// at the same indices, which are the file identities; slot zero is a
/// reserved empty pair. The tables are lists of entries in which the first
/// entry for a key counts.
#[derive(Debug)]
pub struct LiveRegistry {
    /// The file that holds each module.
    pub module_id_to_file_id: Vec<(LiveModuleId, LiveFileId)>,
    pub live_files: Vec<LiveFile>,
    /// The shapes of the registered object types.
    pub live_type_infos: Vec<LiveTypeInfo>,
    /// The working order of the modules, dependencies first, each with the
    /// token that brought it in.
    pub dep_order: Vec<(LiveModuleId, TokenId)>,
    /// For each registered module the modules it depends on.
    pub dep_graph: Vec<(LiveModuleId, Vec<LiveModuleId>)>,
    pub expanded: Vec<LiveDocument>,
}

/// A node array together with the file it belongs to and one index into it.
pub struct LiveDocNodes<'a> {
    pub nodes: &'a [LiveNode],
    pub file_id: LiveFileId,
    pub index: usize,
}

/// What a name resolves to: a node of the array the search started in, or a
/// node of another file's expanded document.
#[derive(Clone, Copy, Debug, PartialEq, Eq, Structural)]
pub enum LiveScopeTarget {
    LocalPtr(usize),
    LivePtr(LivePtr),
}

/// The most files a registry can hold, the reserved slot included.
pub const MAX_FILES: usize = 0x10000;

/// The first index at or after `from` of a file with the given name.
pub open spec fn file_named_from(files: Seq<LiveFile>, name: Seq<char>, from: int) -> Option<int>
    decreases files.len() - from,
{
    if from < 0 || from >= files.len() {
        None
    } else if files[from].file_name@ == name {
        Some(from)
    } else {
        file_named_from(files, name, from + 1)
    }
}

/// `file_named_from` gives the first index from `from` on where a file has
/// the name, and nothing exactly when no file from there on has it.
pub proof fn lemma_file_named_from(files: Seq<LiveFile>, name: Seq<char>, from: int)
    requires
        0 <= from,
    ensures
        match file_named_from(files, name, from) {
            Some(index) => {
                &&& from <= index < files.len()
                &&& files[index].file_name@ == name
                &&& forall|j: int| from <= j < index ==> (#[trigger] files[j]).file_name@ != name
            },
            None => forall|j: int| from <= j < files.len() ==> (#[trigger] files[j]).file_name@ != name,
        },
    decreases files.len() - from,
{
    if from < files.len() && files[from].file_name@ != name {
        lemma_file_named_from(files, name, from + 1);
    }
}

impl Default for LiveFile {
    /// The empty file of the reserved slot zero.
    fn default() -> (r: LiveFile)
        ensures
            r.module_id == LiveModuleId(LiveId(0), LiveId(0)),
            r.start_pos == (TextPos { line: 0, column: 0 }),
            r.file_name@.len() == 0,
            r.source@.len() == 0,
            r.document.is_blank(),
            !r.document.recompile,
    {
        LiveFile {
            module_id: LiveModuleId(LiveId(0), LiveId(0)),
            start_pos: TextPos { line: 0, column: 0 },
            file_name: String::new(),
            source: String::new(),
            document: LiveDocument::default(),
        }
    }
}

impl Default for LiveRegistry {
    /// A registry that holds nothing but the reserved slot zero.
    fn default() -> (r: LiveRegistry)
        ensures
            r.wf(),
            r.live_files@.len() == 1,
            r.expanded@.len() == 1,
            r.module_id_to_file_id@.len() == 0,
            r.live_type_infos@.len() == 0,
            r.dep_order@.len() == 0,
            r.dep_graph@.len() == 0,
            r.live_files@[0].file_name@.len() == 0,
            r.expanded@[0].is_blank(),
            !r.expanded@[0].recompile,
    {
        let mut live_files: Vec<LiveFile> = Vec::new();
        live_files.push(LiveFile::default());
        let mut expanded: Vec<LiveDocument> = Vec::new();
        expanded.push(LiveDocument::default());
        LiveRegistry {
            module_id_to_file_id: Vec::new(),
            live_files,
            live_type_infos: Vec::new(),
            dep_order: Vec::new(),
            dep_graph: Vec::new(),
            expanded,
        }
    }
}

impl LiveRegistry {
    /// The invariant of the registry: files and expanded documents stand at
    /// the same indices; slot zero is the reserved empty one, with no name
    /// and held by no module; every file identity fits in 16 bits; every
    /// module is held by one file, which exists; no type has two shapes; the
    /// order names no module twice; the graph has one entry for a module;
    /// and the order names every module of the graph: the keys and the
    /// dependencies.
    pub open spec fn wf(&self) -> bool {
        &&& self.live_files@.len() == self.expanded@.len()
        &&& 1 <= self.live_files@.len() <= MAX_FILES
        &&& self.live_files@[0].file_name@.len() == 0
        &&& distinct_modules(self.module_id_to_file_id@)
        &&& forall|i: int|
            0 <= i < self.module_id_to_file_id@.len() ==> 1 <= (#[trigger] self.module_id_to_file_id@[i]).1.0
                < self.live_files@.len()
        &&& distinct_types(self.live_type_infos@)
        &&& distinct_modules(self.dep_order@)
        &&& distinct_modules(self.dep_graph@)
        &&& forall|i: int|
            0 <= i < self.dep_graph@.len() ==> has_module(self.dep_order@, (#[trigger] self.dep_graph@[i]).0)
        &&& forall|i: int, dep: LiveModuleId|
            0 <= i < self.dep_graph@.len() && (#[trigger] self.dep_graph@[i]).1@.contains(dep) ==> #[trigger] has_module(
                self.dep_order@,
                dep,
            )
    }

    /// Whether a pointer addresses a node that exists.
    pub open spec fn valid_ptr(&self, live_ptr: LivePtr) -> bool {
        &&& live_ptr.file_id.0 < self.expanded@.len()
        &&& live_ptr.index < self.expanded@[live_ptr.file_id.0 as int].nodes@.len()
    }

    /// The node that a pointer addresses.
    pub fn ptr_to_node(&self, live_ptr: LivePtr) -> (r: &LiveNode)
        requires
            self.valid_ptr(live_ptr),
        ensures
            *r == self.expanded@[live_ptr.file_id.0 as int].nodes@[live_ptr.index as int],
    {
        let doc = &self.expanded[live_ptr.file_id.to_index()];
        doc.resolve_ptr(live_ptr.index as usize)
    }

    /// The name under which a file was registered.
    pub fn file_id_to_file_name(&self, file_id: LiveFileId) -> (r: &str)
        requires
            file_id.0 < self.live_files@.len(),
        ensures
            r@ == self.live_files@[file_id.0 as int].file_name@,
    {
        self.live_files[file_id.to_index()].file_name.as_str()
    }

    /// The expanded document and the node that a pointer addresses.
    pub fn ptr_to_doc_node(&self, live_ptr: LivePtr) -> (r: (&LiveDocument, &LiveNode))
        requires
            self.valid_ptr(live_ptr),
        ensures
            *r.0 == self.expanded@[live_ptr.file_id.0 as int],
            *r.1 == self.expanded@[live_ptr.file_id.0 as int].nodes@[live_ptr.index as int],
    {
        let doc = &self.expanded[live_ptr.file_id.to_index()];
        (doc, doc.resolve_ptr(live_ptr.index as usize))
    }

    /// The expanded document that a pointer points into.
    pub fn ptr_to_doc(&self, live_ptr: LivePtr) -> (r: &LiveDocument)
        requires
            live_ptr.file_id.0 < self.expanded@.len(),
        ensures
            *r == self.expanded@[live_ptr.file_id.0 as int],
    {
        &self.expanded[live_ptr.file_id.to_index()]
    }

    /// The expanded document of a file.
    pub fn file_id_to_doc(&self, file_id: LiveFileId) -> (r: &LiveDocument)
        requires
            file_id.0 < self.expanded@.len(),
        ensures
            *r == self.expanded@[file_id.0 as int],
    {
        &self.expanded[file_id.to_index()]
    }

    /// The node array that a pointer points into, and the index it holds.
    pub fn ptr_to_nodes_index(&self, live_ptr: LivePtr) -> (r: (&[LiveNode], usize))
        requires
            live_ptr.file_id.0 < self.expanded@.len(),
        ensures
            r.0@ == self.expanded@[live_ptr.file_id.0 as int].nodes@,
            r.1 == live_ptr.index,
    {
        let doc = &self.expanded[live_ptr.file_id.to_index()];
        (doc.nodes.as_slice(), live_ptr.index as usize)
    }

    /// The first file, the reserved slot included, that has the given name.
    pub fn path_str_to_file_id(&self, path: &str) -> (r: Option<LiveFileId>)
        requires
            self.live_files@.len() <= MAX_FILES,
        ensures
            match file_named_from(self.live_files@, path@, 0) {
                Some(index) => r == Some(LiveFileId(index as u16)),
                None => r is None,
            },
    {
        match self.find_file(path, 0) {
            Some(index) => Some(LiveFileId(index as u16)),
            None => None,
        }
    }

    /// The first file at or after `from` that has the given name.
    pub fn find_file(&self, name: &str, from: usize) -> (r: Option<usize>)
        ensures
            match r {
                Some(index) => file_named_from(self.live_files@, name@, from as int) == Some(index as int) && from
                    <= index < self.live_files@.len(),
                None => file_named_from(self.live_files@, name@, from as int) is None,
            },
    {
        let wanted = String::from_str(name);
        let mut index: usize = from;
        while index < self.live_files.len()
            invariant
                from <= index,
                wanted@ == name@,
                file_named_from(self.live_files@, name@, index as int) == file_named_from(
                    self.live_files@,
                    name@,
                    from as int,
                ),
            decreases self.live_files@.len() - index,
        {
            if self.live_files[index].file_name == wanted {
                return Some(index);
            }
            index += 1;
        }
        None
    }

    /// The unexpanded document of the file that a token belongs to.
    pub fn token_id_to_origin_doc(&self, token_id: TokenId) -> (r: &LiveDocument)
        requires
            token_id.file_id.0 < self.live_files@.len(),
        ensures
            *r == self.live_files@[token_id.file_id.0 as int].document,
    {
        &self.live_files[token_id.file_id().to_index()].document
    }

    /// The expanded document of the file that a token belongs to.
    pub fn token_id_to_expanded_doc(&self, token_id: TokenId) -> (r: &LiveDocument)
        requires
            token_id.file_id.0 < self.expanded@.len(),
        ensures
            *r == self.expanded@[token_id.file_id.0 as int],
    {
        &self.expanded[token_id.file_id().to_index()]
    }

    /// The file that holds a module, if one was registered for it.
    pub fn module_id_to_file_id(&self, module_id: LiveModuleId) -> (r: Option<LiveFileId>)
        ensures
            r == lookup(self.module_id_to_file_id@, module_id),
    {
        match find_module(&self.module_id_to_file_id, module_id) {
            Some(index) => Some(self.module_id_to_file_id[index].1),
            None => None,
        }
    }

    /// Attaches to an error the name of the file that its span lies in.
    pub fn live_error_to_live_file_error(&self, live_error: LiveError) -> (r: LiveFileError)
        requires
            live_error.span.file_id.0 < self.live_files@.len(),
        ensures
            r.file@ == self.live_files@[live_error.span.file_id.0 as int].file_name@,
            r.span == live_error.span,
            r.message == live_error.message,
    {
        let live_file = &self.live_files[live_error.span.file_id.to_index()];
        live_error.to_live_file_error(live_file.file_name.as_str())
    }

    /// The span of a token of a registered file.
    pub fn token_id_to_span(&self, token_id: TokenId) -> (r: Span)
        requires
            token_id.file_id.0 < self.live_files@.len(),
            token_id.token_index < self.live_files@[token_id.file_id.0 as int].document.tokens@.len(),
        ensures
            r == self.live_files@[token_id.file_id.0 as int].document.tokens@[token_id.token_index as int].span,
    {
        self.live_files[token_id.file_id().to_index()].document.token_id_to_span(token_id)
    }

    /// Repairs the dependency order for one dependency of `own_module_id`:
    /// afterwards the dependency stands in front of it.
    pub fn insert_dep_order(&mut self, module_id: LiveModuleId, token_id: TokenId, own_module_id: LiveModuleId)
        requires
            has_module(old(self).dep_order@, own_module_id),
            distinct_modules(old(self).dep_order@),
        ensures
            final(self).dep_order@ == repaired(old(self).dep_order@, module_id, token_id, own_module_id),
            distinct_modules(final(self).dep_order@),
            forall|module: LiveModuleId| #[trigger]
                position(final(self).dep_order@, module) == position_after_repair(
                    old(self).dep_order@,
                    module_id,
                    own_module_id,
                    module,
                ),
            final(self).module_id_to_file_id == old(self).module_id_to_file_id,
            final(self).live_files == old(self).live_files,
            final(self).live_type_infos == old(self).live_type_infos,
            final(self).dep_graph == old(self).dep_graph,
            final(self).expanded == old(self).expanded,
    {
        proof {
            lemma_repaired_positions(self.dep_order@, module_id, token_id, own_module_id);
        }
        repair_order(&mut self.dep_order, module_id, token_id, own_module_id);
    }

    /// Turns a source text into its token stream and its string buffer, with
    /// `lex` as the lexer, which starts in state `start`.
    pub fn parse_from_str<S: Copy, L>(
        source: &str,
        start_pos: TextPos,
        file_id: LiveFileId,
        start: S,
        lex: L,
    ) -> (r: Result<(Vec<TokenWithSpan>, Vec<char>), LiveError>) where
        L: Fn(S, &Vec<char>, usize) -> (S, Option<(Fragment, usize)>),

        requires
            fits_positions(source@, start_pos),
            lexer_takes_lines::<S, L>(lex),
        ensures
            tokenized_by(lex, start, source@, start_pos, file_id, lexing_of(r)),
            r matches Err(error) ==> error.message@ == "Error tokenizing"@,
    {
        tokenize(source, start_pos, file_id, start, lex)
    }
}

} // verus!
