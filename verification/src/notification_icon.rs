//! The notification widgets' icons and where their assets live.
use vstd::prelude::*;
use crate::text::join_text;

verus! {

/// The icons the notification widgets draw.
#[derive(Clone, Copy, Debug, PartialEq, Eq, Structural)]
pub enum IconName {
    Info,
    Close,
    Application,
    Navbar,
}

impl IconName {
    /// The asset file of the icon, inside the notification icon directory.
    pub open spec fn file_name(self) -> Seq<char> {
        match self {
            IconName::Info => "info.svg"@,
            IconName::Close => "close.svg"@,
            IconName::Application => "audacity.svg"@,
            IconName::Navbar => "navbar.png"@,
        }
    }

    /// The asset path of the icon.
    pub open spec fn resolved(self) -> Seq<char> {
        "icons/notifications/"@ + self.file_name()
    }

    /// The asset path of the icon: the notification icon directory followed
    /// by the icon's file.
    pub fn resolve(&self) -> (r: String)
        ensures
            r@ == self.resolved(),
    {
        let file = match self {
            IconName::Info => "info.svg",
            IconName::Close => "close.svg",
            IconName::Application => "audacity.svg",
            IconName::Navbar => "navbar.png",
        };
        join_text("icons/notifications/", file)
    }
}

} // verus!
