//! Editor actions and the action-manifest loader's conversion step.
//!
//! An action names an editor command, how it triggers, its shortcuts and its
//! priority. Manifests arrive as named entries from a configuration file;
//! the application parses the file and hands the entries here, where they
//! are assembled into an [`ActionManifest`].

use vstd::prelude::*;

verus! {

/// One key chord of a shortcut: a set of held modifiers and a key code.
#[derive(Debug, Clone, Copy, PartialEq, Eq, Hash, Structural)]
pub struct KeySequence {
    pub modifiers: u8,
    pub key: u32,
}

/// How an action triggers and ends.
#[derive(Debug, Clone, Copy, PartialEq, Eq, Structural)]
pub enum ActionType {
    /// Triggers once per shortcut activation.
    OneShot,
    /// Triggers on activation; a short press keeps it active until another
    /// action starts, a long hold ends it on release.
    Toggle,
    /// Active only while the shortcut is held down.
    Hold,
}

/// One editor action.
#[derive(Debug, Clone, PartialEq, Eq)]
pub struct Action {
    pub name: String,
    pub ty: ActionType,
    pub shortcut: Vec<KeySequence>,
    pub priority: u8,
}

/// A loaded set of actions.
#[derive(Debug, Clone, PartialEq, Eq)]
pub struct ActionManifest {
    pub actions: Vec<Action>,
}

/// An action as it stands in a manifest file: without its name (the file
/// keys entries by name) and with the priority optional.
#[derive(Debug, Clone, PartialEq, Eq)]
pub struct SerializableAction {
    pub ty: ActionType,
    pub shortcut: Vec<KeySequence>,
    pub priority: Option<u8>,
}

/// Loader of action manifests. The application reads and parses the file
/// into named [`SerializableAction`] entries; [`ActionManifestLoader::read`]
/// assembles them.
#[derive(Debug, Default)]
pub struct ActionManifestLoader;

impl ActionManifestLoader {
    /// Assemble a manifest from a file's named entries: one action per
    /// entry, in order, with a missing priority defaulting to zero.
    pub fn read(entries: Vec<(String, SerializableAction)>) -> (m: ActionManifest)
        ensures
            m.actions@.len() == entries@.len(),
            forall|i: int|
                0 <= i < entries@.len() ==> {
                    let a = #[trigger] m.actions@[i];
                    &&& a.name@ == entries@[i].0@
                    &&& a.ty == entries@[i].1.ty
                    &&& a.shortcut@ == entries@[i].1.shortcut@
                    &&& a.priority == match entries@[i].1.priority {
                        Some(p) => p,
                        None => 0u8,
                    }
                },
    {
        let ghost all = entries@;
        let mut rest = entries;
        let mut actions: Vec<Action> = Vec::new();
        while rest.len() > 0
            invariant
                actions@.len() + rest@.len() == all.len(),
                rest@ =~= all.subrange(actions@.len() as int, all.len() as int),
                forall|i: int|
                    0 <= i < actions@.len() ==> {
                        let a = #[trigger] actions@[i];
                        &&& a.name@ == all[i].0@
                        &&& a.ty == all[i].1.ty
                        &&& a.shortcut@ == all[i].1.shortcut@
                        &&& a.priority == match all[i].1.priority {
                            Some(p) => p,
                            None => 0u8,
                        }
                    },
            decreases rest@.len(),
        {
            let ghost k = actions@.len() as int;
            let (name, sa) = rest.remove(0);
            proof {
                assert(name == all[k].0 && sa == all[k].1);
                assert(rest@ =~= all.subrange(k + 1, all.len() as int));
            }
            let priority = match sa.priority {
                Some(p) => p,
                None => 0,
            };
            actions.push(Action { name, ty: sa.ty, shortcut: sa.shortcut, priority });
        }
        ActionManifest { actions }
    }
}

} // verus!
