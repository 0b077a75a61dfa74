//! Where the application keeps its data, and how a campaign's name becomes
//! the name of its folder.

use vstd::prelude::*;
use vstd::string::*;
use crate::text::{chars_of, decimal, join, joined, push_decimal, text_of};

verus! {

/// Maximum length for campaign folder names (including disambiguation suffix).
pub const MAX_FOLDER_NAME_LEN: usize = 16;

/// The application's directories.
#[derive(Debug, Clone)]
pub struct AppPaths {
    data_dir: String,
    preference_dir: String,
}

/// A letter or digit of ASCII.
pub open spec fn is_alphanumeric(c: char) -> bool {
    ('a' <= c && c <= 'z') || ('A' <= c && c <= 'Z') || ('0' <= c && c <= '9')
}

/// What a character of a name becomes in a folder name: letters in lower
/// case, digits as they are, anything else a hyphen.
pub open spec fn folded(c: char) -> char {
    if 'A' <= c && c <= 'Z' {
        ((c as int) + 32) as char
    } else if is_alphanumeric(c) {
        c
    } else {
        '-'
    }
}

/// The characters of `name` folded, without hyphens at the start and with
/// every run of hyphens as one.
pub open spec fn collapsed(name: Seq<char>) -> Seq<char>
    decreases name.len(),
{
    if name.len() == 0 {
        name
    } else {
        let before = collapsed(name.drop_last());
        let c = folded(name.last());
        if c == '-' && (before.len() == 0 || before.last() == '-') {
            before
        } else {
            before.push(c)
        }
    }
}

/// `s` without the hyphen at its end, if it has one.
pub open spec fn trimmed(s: Seq<char>) -> Seq<char> {
    if s.len() > 0 && s.last() == '-' {
        s.drop_last()
    } else {
        s
    }
}

/// `s` without the hyphens at its end.
pub open spec fn stripped(s: Seq<char>) -> Seq<char>
    decreases s.len(),
{
    if s.len() > 0 && s.last() == '-' {
        stripped(s.drop_last())
    } else {
        s
    }
}

/// The name that stands in for one that leaves nothing.
pub open spec fn fallback() -> Seq<char> {
    seq!['c', 'a', 'm', 'p', 'a', 'i', 'g', 'n']
}

/// The folder name for the campaign called `name`: lower case, hyphens for
/// everything but letters and digits, none at either end and no two in a
/// row, at most 16 characters; `campaign` where that leaves nothing.
pub open spec fn folder_name(name: Seq<char>) -> Seq<char> {
    let body = trimmed(collapsed(name));
    if body.len() == 0 {
        fallback()
    } else if body.len() > MAX_FOLDER_NAME_LEN {
        stripped(body.take(MAX_FOLDER_NAME_LEN as int))
    } else {
        body
    }
}

/// The `attempt`-th other name for a folder called `base`: the number behind
/// a hyphen, and before it as much of `base` as 16 characters leave room
/// for, without hyphens at its end; `campaign` where that leaves nothing.
pub open spec fn numbered_name(base: Seq<char>, attempt: u32) -> Seq<char> {
    let suffix = seq!['-'] + decimal(attempt as int);
    let room = if suffix.len() < MAX_FOLDER_NAME_LEN {
        MAX_FOLDER_NAME_LEN - suffix.len()
    } else {
        0
    };
    let cut = stripped(
        if base.len() > room {
            base.take(room)
        } else {
            base
        },
    );
    (if cut.len() == 0 {
        fallback()
    } else {
        cut
    }) + suffix
}

/// A character that a folder name is made of: a lower-case letter, a digit
/// or a hyphen.
pub open spec fn is_plain(c: char) -> bool {
    ('a' <= c && c <= 'z') || ('0' <= c && c <= '9') || c == '-'
}

/// Text as a folder name holds it: plain characters, no hyphen at the start
/// and no two hyphens in a row.
pub open spec fn tidy(s: Seq<char>) -> bool {
    &&& forall|i: int| 0 <= i < s.len() ==> is_plain(#[trigger] s[i])
    &&& s.len() > 0 ==> s[0] != '-'
    &&& forall|i: int| 0 <= i < s.len() - 1 ==> !(#[trigger] s[i] == '-' && s[i + 1] == '-')
}

/// What [`collapsed`] gives is tidy.
pub proof fn lemma_collapsed_tidy(name: Seq<char>)
    ensures
        tidy(collapsed(name)),
    decreases name.len(),
{
    if name.len() > 0 {
        lemma_collapsed_tidy(name.drop_last());
        let before = collapsed(name.drop_last());
        let c = folded(name.last());
        assert(is_plain(c));
        let out = collapsed(name);
        if !(c == '-' && (before.len() == 0 || before.last() == '-')) {
            assert(out == before.push(c));
            assert forall|i: int| 0 <= i < out.len() implies is_plain(#[trigger] out[i]) by {
                if i < before.len() {
                    assert(out[i] == before[i]);
                }
            }
            assert forall|i: int| 0 <= i < out.len() - 1 implies !(#[trigger] out[i] == '-'
                && out[i + 1] == '-') by {
                if i < before.len() - 1 {
                    assert(out[i] == before[i]);
                    assert(out[i + 1] == before[i + 1]);
                }
            }
        }
    }
}

/// Tidy text stays tidy where it is cut short.
pub proof fn lemma_tidy_take(s: Seq<char>, n: int)
    requires
        tidy(s),
        0 <= n <= s.len(),
    ensures
        tidy(s.take(n)),
{
    let t = s.take(n);
    assert forall|i: int| 0 <= i < t.len() implies is_plain(#[trigger] t[i]) by {
        assert(t[i] == s[i]);
    }
    assert forall|i: int| 0 <= i < t.len() - 1 implies !(#[trigger] t[i] == '-' && t[i + 1]
        == '-') by {
        assert(t[i] == s[i]);
        assert(t[i + 1] == s[i + 1]);
    }
}

/// Tidy text without the hyphens at its end is tidy, ends in no hyphen, and
/// is empty only if the text was.
pub proof fn lemma_stripped_tidy(s: Seq<char>)
    requires
        tidy(s),
    ensures
        tidy(stripped(s)),
        stripped(s).len() <= s.len(),
        stripped(s).len() > 0 ==> stripped(s).last() != '-',
        s.len() > 0 ==> stripped(s).len() > 0,
    decreases s.len(),
{
    if s.len() > 0 && s.last() == '-' {
        lemma_tidy_take(s, s.len() - 1);
        assert(s.drop_last() =~= s.take(s.len() - 1));
        lemma_stripped_tidy(s.drop_last());
        if s.len() == 1 {
            assert(s[0] != '-');
        }
    }
}

/// The shape of a folder name: from 1 to 16 plain characters, no hyphen at
/// either end and no two hyphens in a row.
pub proof fn lemma_folder_name(name: Seq<char>)
    ensures
        1 <= folder_name(name).len() <= MAX_FOLDER_NAME_LEN,
        tidy(folder_name(name)),
        folder_name(name).last() != '-',
{
    lemma_collapsed_tidy(name);
    let whole = collapsed(name);
    let body = trimmed(whole);
    if whole.len() > 0 && whole.last() == '-' {
        lemma_tidy_take(whole, whole.len() - 1);
        assert(whole.drop_last() =~= whole.take(whole.len() - 1));
        if body.len() > 0 {
            assert(!(whole[whole.len() - 2] == '-' && whole[whole.len() - 2 + 1] == '-'));
            assert(body.last() == whole[whole.len() - 2]);
        }
    }
    if body.len() > MAX_FOLDER_NAME_LEN {
        lemma_tidy_take(body, MAX_FOLDER_NAME_LEN as int);
        lemma_stripped_tidy(body.take(MAX_FOLDER_NAME_LEN as int));
    }
}

fn fold(c: char) -> (r: char)
    ensures
        r == folded(c),
{
    if c >= 'A' && c <= 'Z' {
        ((c as u8) + 32) as char
    } else if (c >= 'a' && c <= 'z') || (c >= '0' && c <= '9') {
        c
    } else {
        '-'
    }
}

fn strip(v: &mut Vec<char>)
    ensures
        final(v)@ == stripped(old(v)@),
{
    while v.len() > 0 && v[v.len() - 1] == '-'
        invariant
            stripped(v@) == stripped(old(v)@),
        decreases v.len(),
    {
        v.pop();
    }
}

fn fallback_name() -> (v: Vec<char>)
    ensures
        v@ == fallback(),
{
    let mut v: Vec<char> = Vec::new();
    v.push('c');
    v.push('a');
    v.push('m');
    v.push('p');
    v.push('a');
    v.push('i');
    v.push('g');
    v.push('n');
    assert(v@ =~= fallback());
    v
}

impl AppPaths {
    /// The data directory where campaign folders are stored.
    pub closed spec fn data(self) -> Seq<char> {
        self.data_dir@
    }

    /// The preference directory for app-wide settings.
    pub closed spec fn preferences(self) -> Seq<char> {
        self.preference_dir@
    }

    /// The paths of an application whose directories are these.
    pub fn at(data_dir: String, preference_dir: String) -> (paths: Self)
        ensures
            paths.data() == data_dir@,
            paths.preferences() == preference_dir@,
    {
        AppPaths { data_dir, preference_dir }
    }

    /// Returns the data directory where campaign folders are stored.
    pub fn data_dir(&self) -> (dir: &str)
        ensures
            dir@ == self.data(),
    {
        self.data_dir.as_str()
    }

    /// Returns the preference directory for app-wide settings.
    pub fn preference_dir(&self) -> (dir: &str)
        ensures
            dir@ == self.preferences(),
    {
        self.preference_dir.as_str()
    }

    /// Returns the path to the app-wide settings file.
    pub fn app_settings_path(&self) -> (path: String)
        ensures
            path@ == joined(self.preferences(), "settings.toml"@),
    {
        join(self.preference_dir.as_str(), "settings.toml")
    }

    /// The path that the campaign folder called `folder_name` has. Whether
    /// there is a campaign at that path is for the caller to find out.
    pub fn campaign_path(&self, folder_name: &str) -> (path: String)
        ensures
            path@ == joined(self.data(), folder_name@),
    {
        join(self.data_dir.as_str(), folder_name)
    }

    /// Normalizes a campaign name to a valid folder name.
    pub fn normalize_folder_name(name: &str) -> (folder: String)
        ensures
            folder@ == folder_name(name@),
    {
        let chars = chars_of(name);
        let mut result: Vec<char> = Vec::new();
        let mut i: usize = 0;
        while i < chars.len()
            invariant
                i <= chars.len(),
                result@ == collapsed(chars@.take(i as int)),
            decreases chars.len() - i,
        {
            assert(chars@.take(i as int + 1).drop_last() =~= chars@.take(i as int));
            let c = fold(chars[i]);
            if c == '-' {
                if result.len() > 0 && result[result.len() - 1] != '-' {
                    result.push(c);
                }
            } else {
                result.push(c);
            }
            i = i + 1;
        }
        assert(chars@.take(chars.len() as int) =~= chars@);
        if result.len() > 0 && result[result.len() - 1] == '-' {
            result.pop();
        }
        if result.len() == 0 {
            return text_of(&fallback_name());
        }
        if result.len() > MAX_FOLDER_NAME_LEN {
            result.truncate(MAX_FOLDER_NAME_LEN);
            strip(&mut result);
        }
        text_of(&result)
    }

    /// The `attempt`-th other name to try for a folder called `base_name`
    /// that is taken.
    pub fn find_unique_path(base_name: &str, attempt: u32) -> (name: String)
        ensures
            name@ == numbered_name(base_name@, attempt),
    {
        let mut suffix = String::new();
        suffix.push('-');
        push_decimal(&mut suffix, attempt as i64);
        let tail = chars_of(suffix.as_str());
        assert(tail@ =~= seq!['-'] + decimal(attempt as int));
        let room: usize = if tail.len() < MAX_FOLDER_NAME_LEN {
            MAX_FOLDER_NAME_LEN - tail.len()
        } else {
            0
        };
        let mut base = chars_of(base_name);
        if base.len() > room {
            base.truncate(room);
        }
        strip(&mut base);
        if base.len() == 0 {
            base = fallback_name();
        }
        let mut name = text_of(&base);
        name.append(suffix.as_str());
        name
    }
}

} // verus!
