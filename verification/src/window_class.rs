//! Which windows are managed, and how.

use redact::Secret;
use vstd::prelude::*;

verus! {

/// The wrapper that keeps a window title out of logs.
#[verifier::external_type_specification]
#[verifier::external_body]
#[verifier::reject_recursive_types(T)]
pub struct ExSecret<T: ?Sized>(redact::Secret<T>);

/// The text that a secret holds.
pub uninterp spec fn exposed(secret: Secret<String>) -> Seq<char>;

/// The text of a title, by `redact::Secret::expose_secret`, which returns a
/// reference to the value that the secret wraps.
#[verifier::external_body]
fn expose_title(title: &Secret<String>) -> (text: &String)
    ensures
        text@ == exposed(*title),
{
    title.expose_secret()
}

/// Another secret with the same text, by the `Clone` of `redact::Secret`, which
/// clones the value that the secret wraps.
#[verifier::external_body]
pub(crate) fn clone_title(title: &Secret<String>) -> (copy: Secret<String>)
    ensures
        exposed(copy) == exposed(*title),
{
    title.clone()
}

/// What decides how a window is managed.
#[derive(Clone, Debug, PartialEq)]
pub struct LayoutWindowInfo {
    pub bundle_id: Option<String>,
    pub title: Option<Secret<String>>,
    pub layer: Option<i32>,
    pub is_standard: bool,
    pub is_resizable: bool,
}

/// What a [`LayoutWindowInfo`] says.
pub struct WindowInfoView {
    pub bundle_id: Option<Seq<char>>,
    pub title: Option<Seq<char>>,
    pub layer: Option<i32>,
    pub is_standard: bool,
    pub is_resizable: bool,
}

/// The text of an optional string.
pub open spec fn text_of(text: Option<String>) -> Option<Seq<char>> {
    match text {
        Some(text) => Some(text@),
        None => None,
    }
}

/// The text of an optional title.
pub open spec fn title_of(title: Option<Secret<String>>) -> Option<Seq<char>> {
    match title {
        Some(title) => Some(exposed(title)),
        None => None,
    }
}

impl View for LayoutWindowInfo {
    type V = WindowInfoView;

    open spec fn view(&self) -> WindowInfoView {
        WindowInfoView {
            bundle_id: text_of(self.bundle_id),
            title: title_of(self.title),
            layer: self.layer,
            is_standard: self.is_standard,
            is_resizable: self.is_resizable,
        }
    }
}

/// How a window is managed.
#[derive(Clone, Copy, Debug, PartialEq, Eq, Structural)]
pub enum WindowClass {
    Untracked,
    FloatByDefault,
    Regular,
}

/// A window that some application shows but that is no window to the user.
pub open spec fn is_no_real_window(info: WindowInfoView) -> bool {
    // Finder reports a nonstandard window that does not exist.
    ||| info.layer is None && !info.is_standard && info.bundle_id == Some("com.apple.finder"@)
    // Firefox shows picture-in-picture windows on layer 0 at first.
    ||| info.bundle_id == Some("org.mozilla.firefox"@) && info.title == Some(
        "Picture-in-Picture"@,
    )
}

/// How a window is managed.
pub open spec fn class_of(info: WindowInfoView) -> WindowClass {
    if info.layer is Some && info.layer != Some(0i32) || is_no_real_window(info) {
        WindowClass::Untracked
    } else if !info.is_standard || !info.is_resizable || info.bundle_id == Some(
        "com.apple.systempreferences"@,
    ) {
        WindowClass::FloatByDefault
    } else {
        WindowClass::Regular
    }
}

fn text_is(text: &Option<String>, wanted: &str) -> (same: bool)
    ensures
        same == (text_of(*text) == Some(wanted@)),
{
    match text {
        Some(text) => *text == wanted.to_owned(),
        None => false,
    }
}

fn title_is(title: &Option<Secret<String>>, wanted: &str) -> (same: bool)
    ensures
        same == (title_of(*title) == Some(wanted@)),
{
    match title {
        Some(title) => *expose_title(title) == wanted.to_owned(),
        None => false,
    }
}

/// Decides how a window is managed.
pub fn classify_window(info: &LayoutWindowInfo) -> (class: WindowClass)
    ensures
        class == class_of(info@),
{
    if let Some(layer) = info.layer {
        if layer != 0 {
            return WindowClass::Untracked;
        }
    } else if !info.is_standard && text_is(&info.bundle_id, "com.apple.finder") {
        return WindowClass::Untracked;
    }
    if text_is(&info.bundle_id, "org.mozilla.firefox") && title_is(
        &info.title,
        "Picture-in-Picture",
    ) {
        return WindowClass::Untracked;
    }
    if !info.is_standard || !info.is_resizable || text_is(
        &info.bundle_id,
        "com.apple.systempreferences",
    ) {
        return WindowClass::FloatByDefault;
    }
    WindowClass::Regular
}

/// Only ordinary windows are managed: whatever is on another layer is left alone,
/// and a window that is not standard or has a fixed size is never laid out.
pub proof fn law_only_ordinary_windows(info: WindowInfoView)
    ensures
        info.layer is Some && info.layer->0 != 0 ==> class_of(info) == WindowClass::Untracked,
        class_of(info) == WindowClass::Regular ==> info.is_standard && info.is_resizable,
{
}

/// A window is left alone exactly if it is on another layer than the ordinary one, if it is one
/// that the Finder names without a layer and that is not standard, or if it is a
/// picture-in-picture window of Firefox. Of the others, exactly those float that are not
/// standard, have a fixed size, or are the system preferences; all the rest are laid out.
pub proof fn law_windows_go_by_class(info: WindowInfoView, layer: i32)
    ensures
        info.layer == Some(layer) && layer != 0 ==> class_of(info) is Untracked,
        info.layer == Some(0i32) && info.bundle_id != Some("org.mozilla.firefox"@) ==> !(class_of(
            info,
        ) is Untracked),
        info.layer is None && info.bundle_id != Some("org.mozilla.firefox"@) ==> (class_of(
            info,
        ) is Untracked <==> info.bundle_id == Some("com.apple.finder"@) && !info.is_standard),
        info.bundle_id == Some("org.mozilla.firefox"@) && info.title == Some(
            "Picture-in-Picture"@,
        ) ==> class_of(info) is Untracked,
        info.bundle_id == Some("org.mozilla.firefox"@) && info.title != Some(
            "Picture-in-Picture"@,
        ) && (info.layer is None || info.layer == Some(0i32)) ==> !(class_of(info) is Untracked),
        !(class_of(info) is Untracked) ==> {
            &&& info.bundle_id == Some("com.apple.systempreferences"@) ==> class_of(
                info,
            ) is FloatByDefault
            &&& info.bundle_id != Some("com.apple.systempreferences"@) ==> (class_of(
                info,
            ) is Regular <==> info.is_standard && info.is_resizable)
        },
{
    reveal_strlit("org.mozilla.firefox");
    reveal_strlit("com.apple.finder");
    assert("org.mozilla.firefox"@.len() != "com.apple.finder"@.len());
}

} // verus!
