//! Portrait resolution.
//!
//! A portrait is looked for under its base name in the campaign's
//! `portraits` folder, first in the size asked for and then in the other,
//! then the same way in the application's `portraits` folder. Where none is
//! found a placeholder stands in.

use vstd::prelude::*;
use vstd::string::*;
use crate::text::{join, joined};

verus! {

/// Portrait image size variants.
#[derive(Debug, Clone, Copy, PartialEq, Eq, Structural)]
pub enum PortraitSize {
    /// Small thumbnail for lists and compact views.
    Small,
    /// Full-size portrait for detailed views.
    Full,
}

/// Portrait subject type for placeholder selection.
#[derive(Debug, Clone, Copy, PartialEq, Eq, Structural)]
pub enum PortraitSubject {
    /// A monster portrait.
    Monster,
    /// A player character portrait.
    Player,
}

impl PortraitSize {
    /// The file suffix of the size.
    pub open spec fn suffix_of(self) -> Seq<char> {
        match self {
            PortraitSize::Small => ".small"@,
            PortraitSize::Full => ".full"@,
        }
    }

    /// Returns the file suffix for this size (e.g., ".small").
    pub fn suffix(self) -> (s: &'static str)
        ensures
            s@ == self.suffix_of(),
    {
        match self {
            Self::Small => ".small",
            Self::Full => ".full",
        }
    }

    /// The other size.
    pub open spec fn alternate_of(self) -> PortraitSize {
        match self {
            PortraitSize::Small => PortraitSize::Full,
            PortraitSize::Full => PortraitSize::Small,
        }
    }

    /// Returns the alternate size for fallback.
    pub fn alternate(self) -> (other: Self)
        ensures
            other == self.alternate_of(),
    {
        match self {
            Self::Small => Self::Full,
            Self::Full => Self::Small,
        }
    }
}

/// Service for resolving portrait base names to file paths.
pub struct PortraitService {
    campaign_portraits: Option<String>,
    app_portraits: String,
    static_path: String,
}

/// The image extensions, in the order in which they are tried.
pub open spec fn extension(index: int) -> Seq<char> {
    if index == 0 {
        "webp"@
    } else if index == 1 {
        "png"@
    } else if index == 2 {
        "jpg"@
    } else {
        "jpeg"@
    }
}

/// The file name of a portrait: base name, size suffix, a dot and the
/// extension.
pub open spec fn file_name(base_name: Seq<char>, size: PortraitSize, index: int) -> Seq<char> {
    (base_name + size.suffix_of()).push('.') + extension(index)
}

/// The name under which a subject's placeholder is kept.
pub open spec fn placeholder_name(subject: PortraitSubject) -> Seq<char> {
    match subject {
        PortraitSubject::Monster => "unknown-monster"@,
        PortraitSubject::Player => "unknown-player"@,
    }
}

fn extension_at(index: usize) -> (e: &'static str)
    ensures
        e@ == extension(index as int),
{
    if index == 0 {
        "webp"
    } else if index == 1 {
        "png"
    } else if index == 2 {
        "jpg"
    } else {
        "jpeg"
    }
}

impl PortraitService {
    /// The campaign's portraits folder, if a campaign is open.
    pub closed spec fn campaign_dir(self) -> Option<Seq<char>> {
        match self.campaign_portraits {
            Some(dir) => Some(dir@),
            None => None,
        }
    }

    /// The application's portraits folder.
    pub closed spec fn app_dir(self) -> Seq<char> {
        self.app_portraits@
    }

    /// The folder of the application's static assets.
    pub closed spec fn static_dir(self) -> Seq<char> {
        self.static_path@
    }

    /// Creates a new portrait service.
    ///
    /// - `campaign_path`: Optional path to the current campaign folder.
    /// - `app_data_path`: Path to the app's data directory for shared portraits.
    /// - `static_path`: Path to the app's static assets (for placeholders).
    pub fn new(campaign_path: Option<&str>, app_data_path: &str, static_path: &str) -> (service:
        Self)
        ensures
            service.campaign_dir() == (match campaign_path {
                Some(p) => Some(joined(p@, "portraits"@)),
                None => None,
            }),
            service.app_dir() == joined(app_data_path@, "portraits"@),
            service.static_dir() == static_path@,
    {
        Self {
            campaign_portraits: match campaign_path {
                Some(p) => Some(join(p, "portraits")),
                None => None,
            },
            app_portraits: join(app_data_path, "portraits"),
            static_path: String::from_str(static_path),
        }
    }

    /// The paths at which a portrait of one size may lie in `dir`, one for
    /// each extension, in the order in which they are to be tried.
    pub fn find_in_dir(&self, dir: &str, base_name: &str, size: PortraitSize) -> (paths: Vec<
        String,
    >)
        ensures
            paths@.len() == 4,
            forall|i: int|
                0 <= i < 4 ==> (#[trigger] paths@[i])@ == joined(
                    dir@,
                    file_name(base_name@, size, i),
                ),
    {
        let mut paths: Vec<String> = Vec::new();
        let mut i: usize = 0;
        while i < 4
            invariant
                i <= 4,
                paths@.len() == i,
                forall|j: int|
                    0 <= j < i ==> (#[trigger] paths@[j])@ == joined(
                        dir@,
                        file_name(base_name@, size, j),
                    ),
            decreases 4 - i,
        {
            let mut filename = String::from_str(base_name);
            filename.append(size.suffix());
            filename.push('.');
            filename.append(extension_at(i));
            paths.push(join(dir, filename.as_str()));
            i = i + 1;
        }
        paths
    }

    /// The paths at which the portrait called `base_name` is looked for, in
    /// order: the campaign's folder in the size asked for and in the other
    /// size, then the application's folder in the same way. The first that
    /// is a file is the portrait.
    pub fn resolve(&self, base_name: &str, size: PortraitSize) -> (paths: Vec<String>)
        ensures
            paths@.len() == (if self.campaign_dir() is Some {
                16int
            } else {
                8int
            }),
            forall|i: int|
                0 <= i < paths@.len() ==> (#[trigger] paths@[i])@ == ({
                    let k = if self.campaign_dir() is Some {
                        i
                    } else {
                        i + 8
                    };
                    joined(
                        if k < 8 {
                            self.campaign_dir()->0
                        } else {
                            self.app_dir()
                        },
                        file_name(
                            base_name@,
                            if (k / 4) % 2 == 0 {
                                size
                            } else {
                                size.alternate_of()
                            },
                            k % 4,
                        ),
                    )
                }),
    {
        let mut paths: Vec<String> = Vec::new();
        if let Some(campaign_dir) = &self.campaign_portraits {
            let mut first = self.find_in_dir(campaign_dir.as_str(), base_name, size);
            let mut second = self.find_in_dir(campaign_dir.as_str(), base_name, size.alternate());
            paths.append(&mut first);
            paths.append(&mut second);
        }
        let mut third = self.find_in_dir(self.app_portraits.as_str(), base_name, size);
        let mut fourth = self.find_in_dir(self.app_portraits.as_str(), base_name, size.alternate());
        paths.append(&mut third);
        paths.append(&mut fourth);
        paths
    }

    /// Returns the placeholder image path.
    pub fn placeholder(&self, size: PortraitSize, subject: PortraitSubject) -> (path: String)
        ensures
            path@ == joined(
                joined(self.static_dir(), "images/portraits"@),
                placeholder_name(subject) + size.suffix_of() + ".jpg"@,
            ),
    {
        let subject_name = match subject {
            PortraitSubject::Monster => "unknown-monster",
            PortraitSubject::Player => "unknown-player",
        };
        let mut filename = String::from_str(subject_name);
        filename.append(size.suffix());
        filename.append(".jpg");
        let dir = join(self.static_path.as_str(), "images/portraits");
        join(dir.as_str(), filename.as_str())
    }
}

} // verus!
