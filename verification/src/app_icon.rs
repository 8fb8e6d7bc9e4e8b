//! The running-apps view's icons and where their assets live.
use vstd::prelude::*;
use crate::text::join_text;

verus! {

/// The icons the running-apps view draws.
#[derive(Clone, Copy, Debug, PartialEq, Eq, Structural)]
pub enum IconName {
    CleanUp,
    Files,
    BgApp,
    Firefox,
    Chromium,
    Kitty,
    Mecha,
    Navbar,
}

impl IconName {
    /// The asset file of the icon, inside the running-apps icon directory.
    pub open spec fn file_name(self) -> Seq<char> {
        match self {
            IconName::CleanUp => "cleanup.svg"@,
            IconName::Files => "files.png"@,
            IconName::BgApp => "bg-app.png"@,
            IconName::Firefox => "firefox.png"@,
            IconName::Chromium => "chromium.png"@,
            IconName::Kitty => "kitty.png"@,
            IconName::Mecha => "mecha.png"@,
            IconName::Navbar => "navbar.png"@,
        }
    }

    /// The asset path of the icon.
    pub open spec fn resolved(self) -> Seq<char> {
        "icons/running-apps/"@ + self.file_name()
    }

    /// The asset path of the icon: the running-apps icon directory followed
    /// by the icon's file.
    pub fn resolve(&self) -> (r: String)
        ensures
            r@ == self.resolved(),
    {
        let file = match self {
            IconName::CleanUp => "cleanup.svg",
            IconName::Files => "files.png",
            IconName::BgApp => "bg-app.png",
            IconName::Firefox => "firefox.png",
            IconName::Chromium => "chromium.png",
            IconName::Kitty => "kitty.png",
            IconName::Mecha => "mecha.png",
            IconName::Navbar => "navbar.png",
        };
        join_text("icons/running-apps/", file)
    }
}

} // verus!
