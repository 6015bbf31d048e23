use vstd::prelude::*;
use crate::logic::dotevery_editor::{
    is_copy_result, DotEveryEditor, DotEveryEditorErrorMessage, DotEveryEditorOperationIndex,
};
use crate::logic::dotevery_editor_controller::DotEveryEditorCommand;
use crate::logic::model::{obeys_tag_clone, Block, Document, Slot};
use crate::logic::program_module::{clone_list, list_view, options_view, ProgramModule, ProgramModuleOption};

verus! {

/// A change to the document that an interface element asks for.
#[derive(Debug)]
pub enum DotEveryEditorAgentInputMessage<T: 'static + Clone + PartialEq> {
    /// The sender is the element that shows the document.
    SetMeManager,
    /// The sender stands for the controller.
    SetMeControllerProxy,
    /// Place the block at the target and index.
    Add(u128, DotEveryEditorOperationIndex, ProgramModule<T>),
    /// Copy the block with the first id to the second id and index.
    Copy(u128, u128, DotEveryEditorOperationIndex),
    /// Take the block with this id out.
    Remove(u128),
    /// Put the text into the input at slot `index` of the block with this id.
    UpdateInput { id: u128, index: usize, value: String },
}

/// What the editor publishes.
#[derive(Debug)]
pub enum DotEveryEditorAgentOutputMessage<T: 'static + Clone + PartialEq> {
    /// A snapshot of the document.
    ModuleUpdated(DotEveryEditor<T>),
    /// A snapshot of the palette.
    PaletteUpdated(Vec<ProgramModule<T>>),
}

/// What the dispatcher asks its surroundings to do.
#[derive(Debug)]
pub enum DotEveryEditorAgentAction<T: 'static + Clone + PartialEq> {
    /// Tell the controller that the document has changed.
    NotifyController,
    /// Send a message to the interface element with this handle.
    Respond(u64, DotEveryEditorAgentOutputMessage<T>),
}

/// Mathematical form of what the dispatcher asks for.
pub enum DispatchModel<T> {
    NotifyController,
    ModuleUpdated(u64, Document<T>),
    PaletteUpdated(u64, Seq<Block<T>>),
}

impl<T: 'static + Clone + PartialEq> View for DotEveryEditorAgentAction<T> {
    type V = DispatchModel<T>;

    open spec fn view(&self) -> DispatchModel<T> {
        match *self {
            DotEveryEditorAgentAction::NotifyController => DispatchModel::NotifyController,
            DotEveryEditorAgentAction::Respond(h, DotEveryEditorAgentOutputMessage::ModuleUpdated(d)) => {
                DispatchModel::ModuleUpdated(h, d@)
            },
            DotEveryEditorAgentAction::Respond(h, DotEveryEditorAgentOutputMessage::PaletteUpdated(p)) => {
                DispatchModel::PaletteUpdated(h, list_view(p@))
            },
        }
    }
}

/// The mathematical forms of a run of requests.
pub open spec fn dispatch_view<T: 'static + Clone + PartialEq>(s: Seq<DotEveryEditorAgentAction<T>>) -> Seq<
    DispatchModel<T>,
> {
    Seq::new(s.len(), |i: int| s[i]@)
}

/// The block with new text in the input at slot `index`; the block itself
/// where that slot is no input.
pub open spec fn with_input<T>(b: Block<T>, index: int, text: Seq<char>) -> Block<T> {
    if 0 <= index < b.slots.len() && b.slots[index] is Input {
        Block { slots: b.slots.update(index, Slot::Input(text)), ..b }
    } else {
        b
    }
}

/// The document after new text has been put into an input of the first node
/// with this id.
pub open spec fn document_with_input<T>(d: Document<T>, id: u128, index: int, text: Seq<char>) -> Document<T> {
    match d.find(id) {
        Some(b) => d.replace(id, with_input(b, index, text)),
        None => d,
    }
}

/// What is published after a change that succeeded: the controller is told,
/// and the manager, if there is one, gets the new snapshot.
pub open spec fn publication<T>(manager: Option<u64>, d: Document<T>) -> Seq<DispatchModel<T>> {
    match manager {
        Some(m) => seq![DispatchModel::NotifyController, DispatchModel::ModuleUpdated(m, d)],
        None => seq![DispatchModel::NotifyController],
    }
}

/// Puts new text into the input at slot `index`; nothing where that slot is no input.
fn set_input<T: 'static + Clone + PartialEq>(module: &mut ProgramModule<T>, index: usize, value: String)
    ensures
        final(module)@ == with_input(old(module)@, index as int, value@),
{
    if index < module.options.len() {
        let is_input = match &module.options[index] {
            ProgramModuleOption::StringInput(_) => true,
            _ => false,
        };
        if is_input {
            module.options[index] = ProgramModuleOption::StringInput(value);
            proof {
                assert(options_view(module.options@) =~= options_view(old(module).options@).update(
                    index as int,
                    Slot::Input(value@),
                ));
            }
        }
    }
}

/// The dispatcher of changes to the document: it applies what it is asked
/// for and says what is to be published.
pub struct DotEveryEditorAgent {
    pub manager: Option<u64>,
    pub controller_proxy: Option<u64>,
}

impl DotEveryEditorAgent {
    /// A dispatcher that knows no manager and no controller yet.
    pub fn new() -> (r: Self)
        ensures
            r.manager is None,
            r.controller_proxy is None,
    {
        DotEveryEditorAgent { manager: None, controller_proxy: None }
    }

    /// What the controller's command makes the dispatcher publish: the
    /// document or the palette, to the manager if there is one.
    pub fn update<T: 'static + Clone + PartialEq>(
        &self,
        logic: &DotEveryEditor<T>,
        palette: &Vec<ProgramModule<T>>,
        msg: DotEveryEditorCommand,
    ) -> (r: Vec<DotEveryEditorAgentAction<T>>)
        ensures
            obeys_tag_clone::<T>() ==> dispatch_view(r@) == match self.manager {
                None => Seq::empty(),
                Some(m) => match msg {
                    DotEveryEditorCommand::Update => seq![DispatchModel::ModuleUpdated(m, logic@)],
                    DotEveryEditorCommand::UpdatePalette => seq![DispatchModel::PaletteUpdated(m, list_view(palette@))],
                },
            },
    {
        let mut actions: Vec<DotEveryEditorAgentAction<T>> = Vec::new();
        match self.manager {
            Some(manager) => {
                match msg {
                    DotEveryEditorCommand::Update => {
                        actions.push(
                            DotEveryEditorAgentAction::Respond(
                                manager,
                                DotEveryEditorAgentOutputMessage::ModuleUpdated(logic.clone()),
                            ),
                        );
                    },
                    DotEveryEditorCommand::UpdatePalette => {
                        actions.push(
                            DotEveryEditorAgentAction::Respond(
                                manager,
                                DotEveryEditorAgentOutputMessage::PaletteUpdated(clone_list(palette)),
                            ),
                        );
                    },
                }
            },
            None => {},
        }
        proof {
            if obeys_tag_clone::<T>() {
                match self.manager {
                    None => {
                        assert(dispatch_view(actions@) =~= Seq::<DispatchModel<T>>::empty());
                    },
                    Some(m) => match msg {
                        DotEveryEditorCommand::Update => {
                            assert(dispatch_view(actions@) =~= seq![DispatchModel::ModuleUpdated(m, logic@)]);
                        },
                        DotEveryEditorCommand::UpdatePalette => {
                            assert(dispatch_view(actions@) =~= seq![
                                DispatchModel::PaletteUpdated(m, list_view(palette@)),
                            ]);
                        },
                    },
                }
            }
        }
        actions
    }

    /// What is published after a change that succeeded.
    fn publish<T: 'static + Clone + PartialEq>(&self, logic: &DotEveryEditor<T>) -> (r: Vec<
        DotEveryEditorAgentAction<T>,
    >)
        ensures
            obeys_tag_clone::<T>() ==> dispatch_view(r@) == publication(self.manager, logic@),
    {
        let mut actions: Vec<DotEveryEditorAgentAction<T>> = Vec::new();
        actions.push(DotEveryEditorAgentAction::NotifyController);
        match self.manager {
            Some(manager) => {
                actions.push(
                    DotEveryEditorAgentAction::Respond(
                        manager,
                        DotEveryEditorAgentOutputMessage::ModuleUpdated(logic.clone()),
                    ),
                );
            },
            None => {},
        }
        proof {
            if obeys_tag_clone::<T>() {
                assert(dispatch_view(actions@) =~= publication(self.manager, logic@));
            }
        }
        actions
    }

    /// Applies one message, sent by the interface element with the handle
    /// `id`, to the document. A change that fails leaves the document as it
    /// was and publishes nothing; one that succeeds is published. New text
    /// for an input is stored without publishing.
    pub fn handle_input<T: 'static + Clone + PartialEq>(
        &mut self,
        logic: &mut DotEveryEditor<T>,
        palette: &Vec<ProgramModule<T>>,
        msg: DotEveryEditorAgentInputMessage<T>,
        id: u64,
    ) -> (r: Vec<DotEveryEditorAgentAction<T>>)
        ensures
            obeys_tag_clone::<T>() ==> is_dispatch(
                *old(self),
                old(logic)@,
                list_view(palette@),
                msg,
                id,
                *final(self),
                final(logic)@,
                dispatch_view(r@),
            ),
    {
        match msg {
            DotEveryEditorAgentInputMessage::SetMeManager => {
                self.manager = Some(id);
                let mut actions: Vec<DotEveryEditorAgentAction<T>> = Vec::new();
                actions.push(
                    DotEveryEditorAgentAction::Respond(id, DotEveryEditorAgentOutputMessage::ModuleUpdated(logic.clone())),
                );
                actions.push(
                    DotEveryEditorAgentAction::Respond(
                        id,
                        DotEveryEditorAgentOutputMessage::PaletteUpdated(clone_list(palette)),
                    ),
                );
                proof {
                    if obeys_tag_clone::<T>() {
                        assert(dispatch_view(actions@) =~= seq![
                            DispatchModel::ModuleUpdated(id, logic@),
                            DispatchModel::PaletteUpdated(id, list_view(palette@)),
                        ]);
                    }
                }
                actions
            },
            DotEveryEditorAgentInputMessage::SetMeControllerProxy => {
                self.controller_proxy = Some(id);
                Vec::new()
            },
            DotEveryEditorAgentInputMessage::Add(target, index, module) => {
                match logic.add(target, index, &module) {
                    Ok(_) => self.publish(logic),
                    Err(_) => Vec::new(),
                }
            },
            DotEveryEditorAgentInputMessage::Copy(src, dest, index) => {
                match logic.copy(src, dest, index) {
                    Ok(_) => self.publish(logic),
                    Err(_) => Vec::new(),
                }
            },
            DotEveryEditorAgentInputMessage::Remove(target) => {
                match logic.remove(target) {
                    Ok(_) => self.publish(logic),
                    Err(_) => Vec::new(),
                }
            },
            DotEveryEditorAgentInputMessage::UpdateInput { id: target, index, value } => {
                match logic.get_module_mut(target) {
                    Ok(module) => {
                        set_input(module, index, value);
                    },
                    Err(_) => {},
                }
                Vec::new()
            },
        }
    }
}

/// Whether the new dispatcher, the new document and the requests are what a
/// message leads to.
pub open spec fn is_dispatch<T: 'static + Clone + PartialEq>(
    pre: DotEveryEditorAgent,
    doc: Document<T>,
    palette: Seq<Block<T>>,
    msg: DotEveryEditorAgentInputMessage<T>,
    id: u64,
    post: DotEveryEditorAgent,
    after: Document<T>,
    actions: Seq<DispatchModel<T>>,
) -> bool {
    match msg {
        DotEveryEditorAgentInputMessage::SetMeManager => {
            &&& post == (DotEveryEditorAgent { manager: Some(id), ..pre })
            &&& after == doc
            &&& actions == seq![DispatchModel::ModuleUpdated(id, doc), DispatchModel::PaletteUpdated(id, palette)]
        },
        DotEveryEditorAgentInputMessage::SetMeControllerProxy => {
            &&& post == (DotEveryEditorAgent { controller_proxy: Some(id), ..pre })
            &&& after == doc
            &&& actions.len() == 0
        },
        DotEveryEditorAgentInputMessage::Add(target, index, module) => {
            &&& post == pre
            &&& match doc.add(target, index, module@) {
                Ok(d) => after == d && actions == publication(pre.manager, d),
                Err(_) => after == doc && actions.len() == 0,
            }
        },
        DotEveryEditorAgentInputMessage::Copy(src, dest, index) => {
            &&& post == pre
            &&& exists|r: Result<(), DotEveryEditorErrorMessage>| #[trigger]
                is_copy_result(doc, src, dest, index, r, after) && (if r is Ok {
                    actions == publication(pre.manager, after)
                } else {
                    actions.len() == 0
                })
        },
        DotEveryEditorAgentInputMessage::Remove(target) => {
            &&& post == pre
            &&& match doc.remove(target) {
                Ok(d) => after == d && actions == publication(pre.manager, d),
                Err(_) => after == doc && actions.len() == 0,
            }
        },
        DotEveryEditorAgentInputMessage::UpdateInput { id: target, index, value } => {
            &&& post == pre
            &&& after == document_with_input(doc, target, index as int, value@)
            &&& actions.len() == 0
        },
    }
}

} // verus!
