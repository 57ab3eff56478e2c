//! Short messages that pop up in a workspace.

use vstd::prelude::*;

verus! {

/// A message, and what a click on it does, if anything: the text to click on, and the number
/// of what is run.
pub struct Toast {
    pub id: usize,
    pub msg: String,
    pub on_click: Option<(String, u64)>,
}

#[verifier::ext_equal]
pub struct ToastView {
    pub id: usize,
    pub msg: Seq<char>,
    pub on_click: Option<(Seq<char>, u64)>,
}

impl View for Toast {
    type V = ToastView;

    open spec fn view(&self) -> ToastView {
        ToastView {
            id: self.id,
            msg: self.msg@,
            on_click: match self.on_click {
                Some((message, on_click)) => Some((message@, on_click)),
                None => None,
            },
        }
    }
}

impl Toast {
    /// A message that cannot be clicked.
    pub fn new(id: usize, msg: String) -> (toast: Toast)
        ensures
            toast@ == (ToastView { id, msg: msg@, on_click: None }),
    {
        Toast { id, msg, on_click: None }
    }

    /// The message with something to click on.
    pub fn on_click(self, message: String, on_click: u64) -> (toast: Toast)
        ensures
            toast@ == (ToastView { on_click: Some((message@, on_click)), ..self@ }),
    {
        Toast { id: self.id, msg: self.msg, on_click: Some((message, on_click)) }
    }
}

/// Two messages are equal that have the same number and text and can both be clicked or both
/// not.
pub open spec fn same_toast(a: ToastView, b: ToastView) -> bool {
    a.id == b.id && a.msg == b.msg && a.on_click is Some == b.on_click is Some
}

impl PartialEq for Toast {
    fn eq(&self, other: &Self) -> (same: bool) {
        self.id == other.id && self.msg == other.msg && self.on_click.is_some()
            == other.on_click.is_some()
    }
}

impl vstd::std_specs::cmp::PartialEqSpecImpl for Toast {
    open spec fn obeys_eq_spec() -> bool {
        true
    }

    open spec fn eq_spec(&self, other: &Self) -> bool {
        same_toast(self@, other@)
    }
}

impl Clone for Toast {
    fn clone(&self) -> (copy: Self)
        ensures
            copy@ == self@,
    {
        Toast {
            id: self.id,
            msg: self.msg.clone(),
            on_click: match &self.on_click {
                Some((message, on_click)) => Some((message.clone(), *on_click)),
                None => None,
            },
        }
    }
}

/// Equality of messages is an equivalence.
pub proof fn law_same_toast(a: ToastView, b: ToastView, c: ToastView)
    ensures
        same_toast(a, a),
        same_toast(a, b) ==> same_toast(b, a),
        same_toast(a, b) && same_toast(b, c) ==> same_toast(a, c),
{
}

/// Messages are equal exactly if they have the same number and the same text, and a click on the
/// one does something where a click on the other does; what it does is not looked at.
pub proof fn law_toast_differs(a: ToastView, b: ToastView)
    ensures
        a.id != b.id ==> !same_toast(a, b),
        a.msg != b.msg ==> !same_toast(a, b),
        a.on_click is Some && b.on_click is None ==> !same_toast(a, b),
        a.id == b.id && a.msg == b.msg && a.on_click is Some && b.on_click is Some ==> same_toast(
            a,
            b,
        ),
        a.id == b.id && a.msg == b.msg && a.on_click is None && b.on_click is None ==> same_toast(
            a,
            b,
        ),
{
}

} // verus!
