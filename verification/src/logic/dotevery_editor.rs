use vstd::prelude::*;
use crate::ids::{fresh_id, id_is_nil, is_random_id, lemma_random_id_not_nil};
use crate::logic::laws::{law_document_add_keeps_links, law_document_remove_keeps_links};
use crate::logic::model::{
    adopt_list, all_random, each_linked, lemma_adopt_list_linked, obeys_tag_clone, obeys_tag_eq,
    same_content, well_linked, Block, Document,
};
use crate::logic::program_module::{
    add_to_list, clone_list, get_module_from_list, get_module_mut_from_list,
    get_modules_by_type_from_list, list_view, refs_view, remove_module_from_list, set_parent_to_list,
    ProgramModule,
};
use crate::logic::unique_ids::{apart, id_bag, law_document_keeps_ids_unique, unique_ids};

verus! {

/// Why a tree operation was refused.
#[derive(PartialEq, Debug)]
pub enum DotEveryEditorErrorMessage {
    /// The index names no position of the target.
    IndexOutOfRange,
    /// No node has the id.
    NotFound,
    /// The lookup that begins a copy failed, for the reason inside.
    ErrorInGetModule(Box<DotEveryEditorErrorMessage>),
    /// The insertion that ends a copy failed, for the reason inside.
    ErrorInAddModule(Box<DotEveryEditorErrorMessage>),
    /// The slot is a label or a text input, which takes no block.
    OptionDoesNotExpectProgramModule,
    /// The target has no container list.
    ChildDoesNotExpectProgramModule,
    /// The hole holds a block already.
    CanNotReplace,
}

/// Where inside a block a new block is to be placed.
#[derive(Debug, Copy, Clone, PartialEq)]
pub enum DotEveryEditorOperationIndex {
    /// The i-th slot, counting every slot.
    OptionAbsolute(usize),
    /// The i-th slot, counting text inputs and holes only.
    OptionInputFiltered(usize),
    /// The i-th slot, counting holes only.
    OptionProgramModuleFiltered(usize),
    /// Position i of the container list; the list's length appends.
    Child(usize),
}

impl Clone for DotEveryEditorErrorMessage {
    fn clone(&self) -> (r: Self)
        ensures
            r == *self,
        decreases self,
    {
        match self {
            DotEveryEditorErrorMessage::IndexOutOfRange => DotEveryEditorErrorMessage::IndexOutOfRange,
            DotEveryEditorErrorMessage::NotFound => DotEveryEditorErrorMessage::NotFound,
            DotEveryEditorErrorMessage::ErrorInGetModule(e) => {
                DotEveryEditorErrorMessage::ErrorInGetModule(Box::new((&**e).clone()))
            },
            DotEveryEditorErrorMessage::ErrorInAddModule(e) => {
                DotEveryEditorErrorMessage::ErrorInAddModule(Box::new((&**e).clone()))
            },
            DotEveryEditorErrorMessage::OptionDoesNotExpectProgramModule => {
                DotEveryEditorErrorMessage::OptionDoesNotExpectProgramModule
            },
            DotEveryEditorErrorMessage::ChildDoesNotExpectProgramModule => {
                DotEveryEditorErrorMessage::ChildDoesNotExpectProgramModule
            },
            DotEveryEditorErrorMessage::CanNotReplace => DotEveryEditorErrorMessage::CanNotReplace,
        }
    }
}

pub type DotEveryEditorResult<T> = Result<T, DotEveryEditorErrorMessage>;

/// Whether `r` and `post` are what copying the first node with the id `src`
/// to `dest` gives: a failed lookup inside `ErrorInGetModule`; else the
/// outcome of adding some copy of that node, one that differs from it in ids
/// and parents only and has random ids throughout, with a failure inside
/// `ErrorInAddModule`.
pub open spec fn is_copy_result<T>(
    pre: Document<T>,
    src: u128,
    dest: u128,
    dest_index: DotEveryEditorOperationIndex,
    r: DotEveryEditorResult<()>,
    post: Document<T>,
) -> bool {
    match pre.find(src) {
        None => r == Err::<(), _>(
            DotEveryEditorErrorMessage::ErrorInGetModule(Box::new(DotEveryEditorErrorMessage::NotFound)),
        ) && post == pre,
        Some(found) => exists|x: Block<T>|
            {
                &&& same_content(found, x)
                &&& well_linked(x)
                &&& x.parent is None
                &&& all_random(x)
                &&& match #[trigger] pre.add(dest, dest_index, x) {
                    Ok(d) => r is Ok && post == d,
                    Err(e) => r == Err::<(), _>(DotEveryEditorErrorMessage::ErrorInAddModule(Box::new(e))) && post
                        == pre,
                }
            },
    }
}

/// The document: its own id and the ordered top-level blocks, each of which
/// names the document as its parent.
#[derive(Debug)]
pub struct DotEveryEditor<Type: 'static + Clone + PartialEq = ()> {
    pub id: u128,
    pub list: Vec<ProgramModule<Type>>,
}

impl<T: 'static + Clone + PartialEq> View for DotEveryEditor<T> {
    type V = Document<T>;

    open spec fn view(&self) -> Document<T> {
        Document { id: self.id, list: list_view(self.list@) }
    }
}

impl<T: 'static + Clone + PartialEq> Clone for DotEveryEditor<T> {
    fn clone(&self) -> (r: Self)
        ensures
            obeys_tag_clone::<T>() ==> r@ == self@,
    {
        DotEveryEditor { id: self.id, list: clone_list(&self.list) }
    }
}

impl<T: 'static + Clone + PartialEq> DotEveryEditor<T> {
    /// A document under a new random id around the given blocks, which get
    /// the document as their parent.
    pub fn new(list: Vec<ProgramModule<T>>) -> (r: Self)
        ensures
            is_random_id(r@.id),
            r@.id != 0,
            r@.list == adopt_list(list_view(list@), r@.id),
            each_linked(list_view(list@)) ==> r@.well_linked(),
    {
        let id = fresh_id();
        proof {
            lemma_random_id_not_nil(id);
        }
        Self::new_with_id(id, list)
    }

    /// A document under the given id around the given blocks, which get the
    /// document as their parent.
    pub fn new_with_id(id: u128, list: Vec<ProgramModule<T>>) -> (r: Self)
        ensures
            r@ == (Document { id, list: adopt_list(list_view(list@), id) }),
            each_linked(list_view(list@)) ==> r@.well_linked(),
    {
        proof {
            if each_linked(list_view(list@)) {
                lemma_adopt_list_linked(list_view(list@), id);
            }
        }
        let mut blocks = list;
        set_parent_to_list(id, &mut blocks);
        let r = Self { id, list: blocks };
        proof {
            assert(r@.list =~= adopt_list(list_view(list@), id));
        }
        r
    }

    /// Places a copy of `module` under the first node whose id is `target`;
    /// the nil id and the document's own id name the top level, where only a
    /// `Child` position is accepted. The copy's parent becomes the node it
    /// is placed under. On any error the document is left as it was.
    pub fn add(&mut self, target: u128, index: DotEveryEditorOperationIndex, module: &ProgramModule<T>) -> (r:
        DotEveryEditorResult<()>)
        ensures
            obeys_tag_clone::<T>() ==> match old(self)@.add(target, index, module@) {
                Ok(d) => r is Ok && final(self)@ == d,
                Err(e) => r == Err::<(), _>(e) && final(self)@ == old(self)@,
            },
            obeys_tag_clone::<T>() && old(self)@.well_linked() && well_linked(module@) ==> final(self)@.well_linked(),
            obeys_tag_clone::<T>() && old(self)@.unique_ids() && unique_ids(module@) && apart(
                old(self)@.id_bag(),
                id_bag(module@),
            ) ==> final(self)@.unique_ids(),
    {
        proof {
            if self@.well_linked() && well_linked(module@) && self@.add(target, index, module@) is Ok {
                law_document_add_keeps_links(self@, target, index, module@);
            }
            if self@.unique_ids() {
                law_document_keeps_ids_unique(self@, target, index, module@, 0);
            }
        }
        if id_is_nil(target) || target == self.id {
            match index {
                DotEveryEditorOperationIndex::Child(i) => {
                    if i <= self.list.len() {
                        let mut module = module.clone();
                        module.parent = Some(self.id);
                        self.list.insert(i, module);
                        proof {
                            if obeys_tag_clone::<T>() {
                                assert(list_view(self.list@) =~= list_view(old(self).list@).insert(
                                    i as int,
                                    module@,
                                ));
                            }
                        }
                        Ok(())
                    } else {
                        Err(DotEveryEditorErrorMessage::IndexOutOfRange)
                    }
                },
                _ => Err(DotEveryEditorErrorMessage::IndexOutOfRange),
            }
        } else {
            match add_to_list(&mut self.list, target, index, module) {
                Some(r) => r,
                None => Err(DotEveryEditorErrorMessage::NotFound),
            }
        }
    }

    /// Places a copy, under new random ids, of the first node whose id is
    /// `src` at `dest`. A failed lookup comes back inside `ErrorInGetModule`,
    /// a failed insertion inside `ErrorInAddModule`; either way the document
    /// is left as it was.
    pub fn copy(&mut self, src: u128, dest: u128, dest_index: DotEveryEditorOperationIndex) -> (r:
        DotEveryEditorResult<()>)
        ensures
            obeys_tag_clone::<T>() ==> is_copy_result(old(self)@, src, dest, dest_index, r, final(self)@),
            obeys_tag_clone::<T>() && old(self)@.well_linked() ==> final(self)@.well_linked(),
    {
        let copied = match self.get_module(src) {
            Ok(module) => module.deep_clone(),
            Err(msg) => {
                return Err(DotEveryEditorErrorMessage::ErrorInGetModule(Box::new(msg)));
            },
        };
        match self.add(dest, dest_index, &copied) {
            Ok(_) => Ok(()),
            Err(msg) => Err(DotEveryEditorErrorMessage::ErrorInAddModule(Box::new(msg))),
        }
    }

    /// The document's own id.
    pub fn id(&self) -> (r: u128)
        ensures
            r == self@.id,
    {
        self.id
    }

    /// The first node of the document, in traversal order, with this id.
    pub fn get_module(&self, id: u128) -> (r: DotEveryEditorResult<&ProgramModule<T>>)
        ensures
            match self@.find(id) {
                Some(b) => r is Ok && r->Ok_0@ == b,
                None => r is Err && r->Err_0 == DotEveryEditorErrorMessage::NotFound,
            },
    {
        match get_module_from_list(id, &self.list) {
            Some(m) => Ok(m),
            None => Err(DotEveryEditorErrorMessage::NotFound),
        }
    }

    /// The first node of the document with this id, for changing in place:
    /// what the caller leaves in it takes that node's place.
    pub fn get_module_mut(&mut self, id: u128) -> (r: DotEveryEditorResult<&mut ProgramModule<T>>)
        ensures
            match old(self)@.find(id) {
                Some(b) => match r {
                    Ok(m) => m@ == b && final(self)@ == old(self)@.replace(id, final(m)@),
                    Err(_) => false,
                },
                None => r is Err && r->Err_0 == DotEveryEditorErrorMessage::NotFound && final(self)@ == old(self)@,
            },
    {
        get_module_mut_from_list(id, &mut self.list)
    }

    /// Every node of the document that carries this tag, in traversal order.
    pub fn get_modules_by_type(&self, type_data: &T) -> (r: Vec<&ProgramModule<T>>)
        ensures
            obeys_tag_eq::<T>() ==> refs_view(r@) == self@.with_tag(*type_data),
    {
        get_modules_by_type_from_list(&self.list, type_data)
    }

    /// Takes one node with this id out of the document: the first top-level
    /// block that carries it, or else the first such node below the
    /// top-level blocks. Where there is none, the result is `NotFound` and
    /// the document is left as it was.
    pub fn remove(&mut self, id: u128) -> (r: DotEveryEditorResult<()>)
        ensures
            match old(self)@.remove(id) {
                Ok(d) => r is Ok && final(self)@ == d,
                Err(e) => r == Err::<(), _>(e) && final(self)@ == old(self)@,
            },
            old(self)@.well_linked() ==> final(self)@.well_linked(),
            old(self)@.unique_ids() ==> final(self)@.unique_ids(),
            old(self)@.unique_ids() && r is Ok ==> final(self)@.find(id) is None,
    {
        proof {
            if self@.well_linked() && self@.remove(id) is Ok {
                law_document_remove_keeps_links(self@, id);
            }
            if self@.unique_ids() {
                law_document_keeps_ids_unique(self@, 0, DotEveryEditorOperationIndex::Child(0), arbitrary(), id);
            }
        }
        if remove_module_from_list(&mut self.list, id) {
            Ok(())
        } else {
            Err(DotEveryEditorErrorMessage::NotFound)
        }
    }

    /// Replaces the top-level blocks, which get the document as their parent.
    pub fn set_root_children(&mut self, children: Vec<ProgramModule<T>>) -> (r: DotEveryEditorResult<()>)
        ensures
            r is Ok,
            final(self)@ == (Document { id: old(self)@.id, list: adopt_list(list_view(children@), old(self)@.id) }),
            each_linked(list_view(children@)) ==> final(self)@.well_linked(),
    {
        proof {
            if each_linked(list_view(children@)) {
                lemma_adopt_list_linked(list_view(children@), self@.id);
            }
        }
        let mut blocks = children;
        set_parent_to_list(self.id, &mut blocks);
        self.list = blocks;
        proof {
            assert(self@.list =~= adopt_list(list_view(children@), old(self)@.id));
        }
        Ok(())
    }
}

} // verus!
