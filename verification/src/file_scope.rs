use vstd::prelude::*;

use crate::ast::{ASTNode, NodeView, clone_node};
use crate::utils::str_eq;

verus! {

// ---- symbols ----

/// Spec-level image of a symbol: a resolved node and its defining file.
#[verifier::ext_equal]
pub struct SymView {
    pub node: NodeView,
    pub file_path: Seq<char>,
}

/// A resolved name: the node it stands for and the file that defines it.
pub struct Symbol {
    pub node: ASTNode,
    pub file_path: String,
}

impl View for Symbol {
    type V = SymView;

    open spec fn view(&self) -> SymView {
        SymView { node: self.node@, file_path: self.file_path@ }
    }
}

/// A structural copy of a symbol, with the same spec-level image.
pub fn clone_symbol(s: &Symbol) -> (r: Symbol)
    ensures
        r@ == s@,
{
    Symbol { node: clone_node(&s.node), file_path: s.file_path.clone() }
}

// ---- one symbol table ----

/// The map held by a list of bindings; a later binding shadows an earlier one.
pub open spec fn st_map(entries: Seq<(String, Symbol)>) -> Map<Seq<char>, SymView>
    decreases entries.len(),
{
    if entries.len() == 0 {
        Map::empty()
    } else {
        st_map(entries.drop_last()).insert(entries.last().0@, entries.last().1@)
    }
}

proof fn lemma_st_map_found(entries: Seq<(String, Symbol)>, key: Seq<char>, j: int)
    requires
        0 <= j < entries.len(),
        entries[j].0@ == key,
        forall|k: int| j < k < entries.len() ==> entries[k].0@ != key,
    ensures
        st_map(entries).contains_key(key),
        st_map(entries)[key] == entries[j].1@,
    decreases entries.len(),
{
    if j == entries.len() - 1 {
    } else {
        lemma_st_map_found(entries.drop_last(), key, j);
    }
}

proof fn lemma_st_map_absent(entries: Seq<(String, Symbol)>, key: Seq<char>)
    requires
        forall|k: int| 0 <= k < entries.len() ==> entries[k].0@ != key,
    ensures
        !st_map(entries).contains_key(key),
    decreases entries.len(),
{
    if entries.len() > 0 {
        lemma_st_map_absent(entries.drop_last(), key);
    }
}

/// One scope frame: names bound to symbols.
pub struct SymbolTable {
    entries: Vec<(String, Symbol)>,
}

impl View for SymbolTable {
    type V = Map<Seq<char>, SymView>;

    closed spec fn view(&self) -> Map<Seq<char>, SymView> {
        st_map(self.entries@)
    }
}

impl SymbolTable {
    pub fn new() -> (r: SymbolTable)
        ensures
            r@ == Map::<Seq<char>, SymView>::empty(),
    {
        SymbolTable { entries: Vec::new() }
    }

    /// The symbol bound to `key`, if any.
    pub fn get(&self, key: &str) -> (r: Option<&Symbol>)
        ensures
            match r {
                Some(sym) => self@.contains_key(key@) && self@[key@] == sym@,
                None => !self@.contains_key(key@),
            },
    {
        let ghost es = self.entries@;
        let mut k: usize = self.entries.len();
        #[verifier::loop_isolation(false)]
        while k > 0
            invariant
                k <= es.len(),
                forall|idx: int| k <= idx < es.len() ==> es[idx].0@ != key@,
            decreases k,
        {
            k -= 1;
            if str_eq(self.entries[k].0.as_str(), key) {
                proof {
                    lemma_st_map_found(es, key@, k as int);
                }
                return Some(&self.entries[k].1);
            }
        }
        proof {
            lemma_st_map_absent(es, key@);
        }
        None
    }

    /// Bind `key` to `symbol`, shadowing any earlier binding.
    pub fn insert(&mut self, key: &str, symbol: Symbol)
        ensures
            final(self)@ == old(self)@.insert(key@, symbol@),
    {
        let ghost es = self.entries@;
        let ghost symv = symbol@;
        self.entries.push((key.to_owned(), symbol));
        proof {
            assert(self.entries@.drop_last() =~= es);
            assert(self.entries@.last().0@ == key@);
        }
    }
}

// ---- one file's scopes ----

/// Spec-level image of a file scope: its path, its global table, and its
/// function frames, each a stack of block tables.
#[verifier::ext_equal]
pub struct FsView {
    pub file_path: Seq<char>,
    pub global: Map<Seq<char>, SymView>,
    pub frames: Seq<Seq<Map<Seq<char>, SymView>>>,
}

/// The spec-level images of one function frame's block tables.
pub open spec fn frame_model(v: Vec<SymbolTable>) -> Seq<Map<Seq<char>, SymView>> {
    Seq::new(v@.len(), |j: int| v@[j]@)
}

/// Which scope a push opens: a block inside the current frame, or a frame.
pub enum ScopeKind {
    Function,
    Block,
}

/// The scopes of one file: a global table and a stack of function frames.
pub struct FileScope {
    pub file_path: String,
    global_table: SymbolTable,
    scope: Vec<Vec<SymbolTable>>,
}

impl View for FileScope {
    type V = FsView;

    closed spec fn view(&self) -> FsView {
        FsView {
            file_path: self.file_path@,
            global: self.global_table@,
            frames: Seq::new(self.scope@.len(), |i: int| frame_model(self.scope@[i])),
        }
    }
}

/// The symbol bound in a frame, searching the innermost block first.
pub open spec fn frame_lookup(frame: Seq<Map<Seq<char>, SymView>>, key: Seq<char>) -> Option<
    SymView,
>
    decreases frame.len(),
{
    if frame.len() == 0 {
        None
    } else if frame.last().contains_key(key) {
        Some(frame.last()[key])
    } else {
        frame_lookup(frame.drop_last(), key)
    }
}

/// The symbol a file scope resolves: innermost block outward through the
/// current frame, then the file's global table.
pub open spec fn fs_lookup(m: FsView, key: Seq<char>) -> Option<SymView> {
    let in_frame = if m.frames.len() == 0 {
        None
    } else {
        frame_lookup(m.frames.last(), key)
    };
    match in_frame {
        Some(s) => Some(s),
        None => if m.global.contains_key(key) {
            Some(m.global[key])
        } else {
            None
        },
    }
}

impl FileScope {
    /// The path of the file this scope belongs to.
    pub fn get_file_path(&self) -> (r: &String)
        ensures
            r@ == self@.file_path,
    {
        &self.file_path
    }

    /// A fresh file scope holds one empty function frame.
    pub fn new(file_path: &str) -> (r: FileScope)
        ensures
            r@ == (FsView {
                file_path: file_path@,
                global: Map::<Seq<char>, SymView>::empty(),
                frames: seq![Seq::<Map<Seq<char>, SymView>>::empty()],
            }),
    {
        let r = FileScope {
            file_path: file_path.to_owned(),
            global_table: SymbolTable::new(),
            scope: vec![Vec::new()],
        };
        proof {
            assert(r@.frames =~~= seq![Seq::<Map<Seq<char>, SymView>>::empty()]);
            assert(r@ =~~= (FsView {
                file_path: file_path@,
                global: Map::<Seq<char>, SymView>::empty(),
                frames: seq![Seq::<Map<Seq<char>, SymView>>::empty()],
            }));
        }
        r
    }

    /// Open a block in the current frame, or a new empty frame.
    pub fn push(&mut self, kind: ScopeKind)
        requires
            old(self)@.frames.len() >= 1,
        ensures
            final(self)@.file_path == old(self)@.file_path,
            final(self)@.global == old(self)@.global,
            match kind {
                ScopeKind::Block => final(self)@.frames == old(self)@.frames.update(
                    old(self)@.frames.len() - 1,
                    old(self)@.frames.last().push(Map::<Seq<char>, SymView>::empty()),
                ),
                ScopeKind::Function => final(self)@.frames == old(self)@.frames.push(
                    Seq::<Map<Seq<char>, SymView>>::empty(),
                ),
            },
    {
        match kind {
            ScopeKind::Block => {
                let mut frame = self.scope.pop().unwrap();
                frame.push(SymbolTable::new());
                self.scope.push(frame);
                proof {
                    assert(final(self)@.frames =~~= old(self)@.frames.update(
                        old(self)@.frames.len() - 1,
                        old(self)@.frames.last().push(Map::<Seq<char>, SymView>::empty()),
                    ));
                }
            },
            ScopeKind::Function => {
                self.scope.push(Vec::new());
                proof {
                    assert(final(self)@.frames =~~= old(self)@.frames.push(
                        Seq::<Map<Seq<char>, SymView>>::empty(),
                    ));
                }
            },
        }
    }

    /// Close the innermost block; a frame left empty is closed with it.
    /// Returns how many frames remain.
    pub fn pop(&mut self) -> (r: usize)
        requires
            old(self)@.frames.len() >= 1,
        ensures
            final(self)@.file_path == old(self)@.file_path,
            final(self)@.global == old(self)@.global,
            ({
                let f = old(self)@.frames.last();
                let f2 = if f.len() > 0 {
                    f.drop_last()
                } else {
                    f
                };
                if f2.len() == 0 {
                    final(self)@.frames == old(self)@.frames.drop_last()
                } else {
                    final(self)@.frames == old(self)@.frames.update(
                        old(self)@.frames.len() - 1,
                        f2,
                    )
                }
            }),
            r as int == final(self)@.frames.len(),
    {
        let mut frame = self.scope.pop().unwrap();
        let popped = frame.pop();
        proof {
            match popped {
                Some(_) => {
                    assert(frame_model(frame) =~~= old(self)@.frames.last().drop_last());
                },
                None => {
                    assert(frame_model(frame) =~~= old(self)@.frames.last());
                },
            }
        }
        if frame.len() == 0 {
            proof {
                assert(self.scope@ =~= old(self).scope@.drop_last());
                assert(final(self)@.frames =~~= old(self)@.frames.drop_last());
            }
        } else {
            self.scope.push(frame);
            proof {
                assert(final(self)@.frames =~~= old(self)@.frames.update(
                    old(self)@.frames.len() - 1,
                    frame_model(frame),
                ));
            }
        }
        self.scope.len()
    }

    /// Bind a symbol in the innermost block, or in the global table when the
    /// current frame holds no block.
    pub fn insert_symbol(&mut self, key: &str, symbol: Symbol)
        requires
            old(self)@.frames.len() >= 1,
        ensures
            final(self)@.file_path == old(self)@.file_path,
            final(self)@.frames.len() == old(self)@.frames.len(),
            ({
                let f = old(self)@.frames.last();
                if f.len() == 0 {
                    final(self)@.global == old(self)@.global.insert(key@, symbol@)
                        && final(self)@.frames == old(self)@.frames
                } else {
                    final(self)@.global == old(self)@.global
                        && final(self)@.frames == old(self)@.frames.update(
                        old(self)@.frames.len() - 1,
                        f.update(f.len() - 1, f.last().insert(key@, symbol@)),
                    )
                }
            }),
    {
        let ghost symv = symbol@;
        let mut frame = self.scope.pop().unwrap();
        if frame.len() == 0 {
            self.scope.push(frame);
            self.global_table.insert(key, symbol);
            proof {
                assert(final(self)@.frames =~~= old(self)@.frames);
            }
        } else {
            let mut table = frame.pop().unwrap();
            table.insert(key, symbol);
            frame.push(table);
            self.scope.push(frame);
            proof {
                let f = old(self)@.frames.last();
                assert(frame_model(frame) =~~= f.update(f.len() - 1, f.last().insert(key@, symv)));
                assert(final(self)@.frames =~~= old(self)@.frames.update(
                    old(self)@.frames.len() - 1,
                    frame_model(frame),
                ));
            }
        }
    }

    /// Resolve a name: innermost block outward, then the global table.
    pub fn find_symbol(&self, key: &str) -> (r: Option<&Symbol>)
        requires
            self@.frames.len() >= 1,
        ensures
            match r {
                Some(sym) => fs_lookup(self@, key@) == Some(sym@),
                None => fs_lookup(self@, key@) is None,
            },
    {
        let frame = &self.scope[self.scope.len() - 1];
        let ghost fm = frame_model(*frame);
        proof {
            assert(fm.take(frame@.len() as int) =~= fm);
        }
        let mut k: usize = frame.len();
        #[verifier::loop_isolation(false)]
        while k > 0
            invariant
                k <= fm.len(),
                frame_lookup(fm, key@) == frame_lookup(fm.take(k as int), key@),
            decreases k,
        {
            k -= 1;
            proof {
                assert(fm.take(k as int + 1).drop_last() =~= fm.take(k as int));
                assert(fm.take(k as int + 1).last() == fm[k as int]);
            }
            match frame[k].get(key) {
                Some(sym) => {
                    return Some(sym);
                },
                None => {},
            }
        }
        proof {
            assert(fm.take(0) =~= Seq::<Map<Seq<char>, SymView>>::empty());
        }
        self.global_table.get(key)
    }
}

// ---- the whole stack of file scopes ----

/// The spec-level images of a stack of file scopes.
pub open spec fn ps_model(scope: Seq<FileScope>) -> Seq<FsView> {
    Seq::new(scope.len(), |i: int| scope[i]@)
}

/// A fresh file scope's image: one empty frame, an empty global table.
pub open spec fn fs_fresh(path: Seq<char>) -> FsView {
    FsView {
        file_path: path,
        global: Map::<Seq<char>, SymView>::empty(),
        frames: seq![Seq::<Map<Seq<char>, SymView>>::empty()],
    }
}

/// What opening a file scope does to the stack.
pub open spec fn sp_scope_push_file(scope: Seq<FsView>, path: Seq<char>) -> Seq<FsView> {
    scope.push(fs_fresh(path))
}

/// What opening a block does to the stack: a new table on the current file's
/// innermost frame; nothing with no current file.
pub open spec fn sp_scope_push_block(scope: Seq<FsView>) -> Seq<FsView> {
    if scope.len() == 0 {
        scope
    } else {
        let fs = scope.last();
        scope.update(
            scope.len() - 1,
            FsView {
                file_path: fs.file_path,
                global: fs.global,
                frames: fs.frames.update(
                    fs.frames.len() - 1,
                    fs.frames.last().push(Map::<Seq<char>, SymView>::empty()),
                ),
            },
        )
    }
}

/// What closing the innermost block does to the stack: the table goes; a
/// frame left empty goes with it, and a file scope left without frames is
/// popped. Nothing happens with no current file.
pub open spec fn sp_scope_pop(scope: Seq<FsView>) -> Seq<FsView> {
    if scope.len() == 0 {
        scope
    } else {
        let fs = scope.last();
        let f = fs.frames.last();
        let f2 = if f.len() > 0 {
            f.drop_last()
        } else {
            f
        };
        if f2.len() == 0 && fs.frames.len() == 1 {
            scope.drop_last()
        } else if f2.len() == 0 {
            scope.update(
                scope.len() - 1,
                FsView { file_path: fs.file_path, global: fs.global, frames: fs.frames.drop_last() },
            )
        } else {
            scope.update(
                scope.len() - 1,
                FsView {
                    file_path: fs.file_path,
                    global: fs.global,
                    frames: fs.frames.update(fs.frames.len() - 1, f2),
                },
            )
        }
    }
}

/// What binding a symbol does to the stack: into the current file's innermost
/// block, or its global table when the frame holds no block; nothing with no
/// current file.
pub open spec fn sp_scope_insert(scope: Seq<FsView>, key: Seq<char>, sym: SymView) -> Seq<FsView> {
    if scope.len() == 0 {
        scope
    } else {
        let fs = scope.last();
        let f = fs.frames.last();
        if f.len() == 0 {
            scope.update(
                scope.len() - 1,
                FsView {
                    file_path: fs.file_path,
                    global: fs.global.insert(key, sym),
                    frames: fs.frames,
                },
            )
        } else {
            scope.update(
                scope.len() - 1,
                FsView {
                    file_path: fs.file_path,
                    global: fs.global,
                    frames: fs.frames.update(
                        fs.frames.len() - 1,
                        f.update(f.len() - 1, f.last().insert(key, sym)),
                    ),
                },
            )
        }
    }
}

/// What resolving a name yields: the current file's lookup, or nothing with
/// no current file.
pub open spec fn sp_scope_find(scope: Seq<FsView>, key: Seq<char>) -> Option<SymView> {
    if scope.len() == 0 {
        None
    } else {
        fs_lookup(scope.last(), key)
    }
}

/// The stack of file scopes; the top is the file being visited.
pub struct ProgramScope {
    scope: Vec<FileScope>,
}

impl View for ProgramScope {
    type V = Seq<FsView>;

    closed spec fn view(&self) -> Seq<FsView> {
        ps_model(self.scope@)
    }
}

impl ProgramScope {
    /// Every file scope on the stack holds at least one frame.
    pub open spec fn wf(&self) -> bool {
        forall|i: int| 0 <= i < self@.len() ==> (#[trigger] self@[i]).frames.len() >= 1
    }

    pub fn new() -> (r: ProgramScope)
        ensures
            r@ == Seq::<FsView>::empty(),
            r.wf(),
    {
        let r = ProgramScope { scope: Vec::new() };
        proof {
            assert(r@ =~= Seq::<FsView>::empty());
        }
        r
    }

    /// The file scope being visited, if any.
    pub fn current(&self) -> (r: Option<&FileScope>)
        ensures
            match r {
                Some(fs) => self@.len() > 0 && fs@ == self@.last(),
                None => self@.len() == 0,
            },
    {
        if self.scope.len() == 0 {
            None
        } else {
            Some(&self.scope[self.scope.len() - 1])
        }
    }

    /// Open a scope for a file about to be visited.
    pub fn push_file(&mut self, path: &str)
        requires
            old(self).wf(),
        ensures
            final(self).wf(),
            final(self)@ == sp_scope_push_file(old(self)@, path@),
    {
        self.scope.push(FileScope::new(path));
        proof {
            assert(final(self)@ =~= old(self)@.push(
                FsView {
                    file_path: path@,
                    global: Map::<Seq<char>, SymView>::empty(),
                    frames: seq![Seq::<Map<Seq<char>, SymView>>::empty()],
                },
            ));
        }
    }

    /// Open a block in the current file's frame; with no current file this
    /// does nothing.
    pub fn push_block(&mut self)
        requires
            old(self).wf(),
        ensures
            final(self).wf(),
            final(self)@ == sp_scope_push_block(old(self)@),
    {
        if self.scope.len() == 0 {
            return ;
        }
        let mut fs = self.scope.pop().unwrap();
        proof {
            assert(old(self)@[old(self)@.len() - 1].frames.len() >= 1);
            assert(fs@ == old(self)@.last());
        }
        fs.push(ScopeKind::Block);
        self.scope.push(fs);
        proof {
            let fsv = old(self)@.last();
            assert(fs@ =~~= (FsView {
                file_path: fsv.file_path,
                global: fsv.global,
                frames: fsv.frames.update(
                    fsv.frames.len() - 1,
                    fsv.frames.last().push(Map::<Seq<char>, SymView>::empty()),
                ),
            }));
            assert(final(self)@ =~= old(self)@.update(old(self)@.len() - 1, fs@));
        }
    }

    /// Close the innermost block of the current file; a frame left empty is
    /// closed too, and a file scope left without frames is popped. With no
    /// current file this does nothing.
    pub fn pop(&mut self)
        requires
            old(self).wf(),
        ensures
            final(self).wf(),
            final(self)@ == sp_scope_pop(old(self)@),
    {
        if self.scope.len() == 0 {
            return ;
        }
        let mut fs = self.scope.pop().unwrap();
        proof {
            assert(old(self)@[old(self)@.len() - 1].frames.len() >= 1);
            assert(fs@ == old(self)@.last());
        }
        let remaining = fs.pop();
        if remaining == 0 {
            proof {
                assert(final(self)@ =~= old(self)@.drop_last());
            }
        } else {
            self.scope.push(fs);
            proof {
                assert(final(self)@ =~= old(self)@.update(old(self)@.len() - 1, fs@));
                let fsv = old(self)@.last();
                let f = fsv.frames.last();
                let f2 = if f.len() > 0 {
                    f.drop_last()
                } else {
                    f
                };
                if f2.len() == 0 {
                    assert(fs@ =~= (FsView {
                        file_path: fsv.file_path,
                        global: fsv.global,
                        frames: fsv.frames.drop_last(),
                    }));
                } else {
                    assert(fs@ =~= (FsView {
                        file_path: fsv.file_path,
                        global: fsv.global,
                        frames: fsv.frames.update(fsv.frames.len() - 1, f2),
                    }));
                }
            }
        }
    }

    /// Resolve a name through the current file's scopes; with no current file
    /// nothing resolves.
    pub fn find_symbol(&self, key: &str) -> (r: Option<&Symbol>)
        requires
            self.wf(),
        ensures
            match r {
                Some(sym) => self@.len() > 0 && sp_scope_find(self@, key@) == Some(sym@),
                None => sp_scope_find(self@, key@) is None,
            },
    {
        if self.scope.len() == 0 {
            return None;
        }
        self.scope[self.scope.len() - 1].find_symbol(key)
    }

    /// Bind a symbol in the current file's scopes. With no current file the
    /// binding is dropped: this library's functions never abort the process,
    /// so the caller-must-prevent state is a stated no-op instead.
    pub fn insert_symbol(&mut self, key: &str, symbol: Symbol)
        requires
            old(self).wf(),
        ensures
            final(self).wf(),
            final(self)@ == sp_scope_insert(old(self)@, key@, symbol@),
    {
        if self.scope.len() == 0 {
            return ;
        }
        let ghost symv = symbol@;
        let mut fs = self.scope.pop().unwrap();
        proof {
            assert(old(self)@[old(self)@.len() - 1].frames.len() >= 1);
            assert(fs@ == old(self)@.last());
        }
        fs.insert_symbol(key, symbol);
        self.scope.push(fs);
        proof {
            let fsv = old(self)@.last();
            let f = fsv.frames.last();
            if f.len() == 0 {
                assert(fs@ =~= (FsView {
                    file_path: fsv.file_path,
                    global: fsv.global.insert(key@, symv),
                    frames: fsv.frames,
                }));
            } else {
                assert(fs@ =~= (FsView {
                    file_path: fsv.file_path,
                    global: fsv.global,
                    frames: fsv.frames.update(
                        fsv.frames.len() - 1,
                        f.update(f.len() - 1, f.last().insert(key@, symv)),
                    ),
                }));
            }
            assert(final(self)@ =~= old(self)@.update(old(self)@.len() - 1, fs@));
        }
    }
}

} // verus!
