//! Decoding of per-line protocol metadata: the `KEY=VALUE` tag prefix of
//! an inbound line, already split into entries, is distilled into the
//! structured records the engine reads.

use vstd::prelude::*;

verus! {

use crate::text::str_eq;

/// One tag of an inbound line. A tag may carry no value.
pub struct TagEntry {
    pub name: String,
    pub value: Option<String>,
}

/// The value of the last tag named `name` that carries a value, if any.
/// Later occurrences override earlier ones; a tag without a value is
/// skipped, it does not override.
pub open spec fn tag_value(tags: Seq<TagEntry>, name: Seq<char>) -> Option<Seq<char>>
    decreases tags.len(),
{
    if tags.len() == 0 {
        None
    } else {
        let t = tags.last();
        if t.name@ == name && t.value is Some {
            Some(t.value->0@)
        } else {
            tag_value(tags.drop_last(), name)
        }
    }
}

/// `tag_value` of an optional tag list; absent tags carry nothing.
pub open spec fn opt_tag_value(tags: Option<Vec<TagEntry>>, name: Seq<char>) -> Option<Seq<char>> {
    match tags {
        Some(v) => tag_value(v@, name),
        None => None,
    }
}

/// The view of an optional owned string.
pub open spec fn opt_view(o: Option<String>) -> Option<Seq<char>> {
    match o {
        Some(s) => Some(s@),
        None => None,
    }
}

/// The tags of an ordinary chat line. Absence of a field is meaningful:
/// not every line carries every tag.
pub struct Tags {
    /// Contents of the id tag if present.
    pub id: Option<String>,
    /// Contents of the msg-id tag if present.
    pub msg_id: Option<String>,
    /// The display name of the user.
    pub display_name: Option<String>,
    /// The ID of the user.
    pub user_id: Option<String>,
    /// Color of the user.
    pub color: Option<String>,
    /// Emotes part of the message.
    pub emotes: Option<String>,
}

impl Tags {
    /// The record every field of which is absent.
    pub fn empty() -> (r: Tags)
        ensures
            r.id is None,
            r.msg_id is None,
            r.display_name is None,
            r.user_id is None,
            r.color is None,
            r.emotes is None,
    {
        Tags { id: None, msg_id: None, display_name: None, user_id: None, color: None, emotes: None }
    }

    /// Extracts the structured tag record from a tag list.
    pub fn from_tags(tags: Option<Vec<TagEntry>>) -> (r: Tags)
        ensures
            opt_view(r.id) == opt_tag_value(tags, "id"@),
            opt_view(r.msg_id) == opt_tag_value(tags, "msg-id"@),
            opt_view(r.display_name) == opt_tag_value(tags, "display-name"@),
            opt_view(r.user_id) == opt_tag_value(tags, "user-id"@),
            opt_view(r.color) == opt_tag_value(tags, "color"@),
            opt_view(r.emotes) == opt_tag_value(tags, "emotes"@),
    {
        let mut id: Option<String> = None;
        let mut msg_id: Option<String> = None;
        let mut display_name: Option<String> = None;
        let mut user_id: Option<String> = None;
        let mut color: Option<String> = None;
        let mut emotes: Option<String> = None;

        if let Some(tags) = tags {
            let n = tags.len();
            let mut i: usize = 0;
            while i < n
                invariant
                    0 <= i <= n,
                    n == tags@.len(),
                    opt_view(id) == tag_value(tags@.take(i as int), "id"@),
                    opt_view(msg_id) == tag_value(tags@.take(i as int), "msg-id"@),
                    opt_view(display_name) == tag_value(tags@.take(i as int), "display-name"@),
                    opt_view(user_id) == tag_value(tags@.take(i as int), "user-id"@),
                    opt_view(color) == tag_value(tags@.take(i as int), "color"@),
                    opt_view(emotes) == tag_value(tags@.take(i as int), "emotes"@),
                decreases n - i,
            {
                proof {
                    broadcast use vstd::string::group_string_axioms;

                    reveal_strlit("id");
                    reveal_strlit("msg-id");
                    reveal_strlit("display-name");
                    reveal_strlit("user-id");
                    reveal_strlit("color");
                    reveal_strlit("emotes");
                    assert("id"@.len() == 2 && "msg-id"@.len() == 6 && "display-name"@.len() == 12
                        && "user-id"@.len() == 7 && "color"@.len() == 5 && "emotes"@.len() == 6);
                    assert("msg-id"@[0] == 'm' && "emotes"@[0] == 'e');
                    assert(tags@.take(i + 1).drop_last() =~= tags@.take(i as int));
                    assert(tags@.take(i + 1).last() == tags@[i as int]);
                }
                let t = &tags[i];
                if t.value.is_some() {
                    let v = t.value.as_ref().unwrap();
                    if str_eq(t.name.as_str(), "id") {
                        id = Some(v.clone());
                    } else if str_eq(t.name.as_str(), "msg-id") {
                        msg_id = Some(v.clone());
                    } else if str_eq(t.name.as_str(), "display-name") {
                        display_name = Some(v.clone());
                    } else if str_eq(t.name.as_str(), "user-id") {
                        user_id = Some(v.clone());
                    } else if str_eq(t.name.as_str(), "color") {
                        color = Some(v.clone());
                    } else if str_eq(t.name.as_str(), "emotes") {
                        emotes = Some(v.clone());
                    }
                }
                i = i + 1;
            }
            proof {
                assert(tags@.take(n as int) =~= tags@);
            }
        }

        Tags { id, msg_id, display_name, user_id, color, emotes }
    }
}

/// The tags of a per-message deletion notice.
pub struct ClearMsgTags {
    pub target_msg_id: String,
}

impl ClearMsgTags {
    /// Extracts the deletion target; a notice without a target yields
    /// nothing.
    pub fn from_tags(tags: Option<Vec<TagEntry>>) -> (r: Option<ClearMsgTags>)
        ensures
            match r {
                Some(c) => opt_tag_value(tags, "target-msg-id"@) == Some(c.target_msg_id@),
                None => opt_tag_value(tags, "target-msg-id"@) is None,
            },
    {
        let mut target_msg_id: Option<String> = None;

        if let Some(tags) = tags {
            let n = tags.len();
            let mut i: usize = 0;
            while i < n
                invariant
                    0 <= i <= n,
                    n == tags@.len(),
                    opt_view(target_msg_id) == tag_value(tags@.take(i as int), "target-msg-id"@),
                decreases n - i,
            {
                proof {
                    assert(tags@.take(i + 1).drop_last() =~= tags@.take(i as int));
                    assert(tags@.take(i + 1).last() == tags@[i as int]);
                }
                let t = &tags[i];
                if t.value.is_some() {
                    let v = t.value.as_ref().unwrap();
                    if str_eq(t.name.as_str(), "target-msg-id") {
                        target_msg_id = Some(v.clone());
                    }
                }
                i = i + 1;
            }
            proof {
                assert(tags@.take(n as int) =~= tags@);
            }
        }

        match target_msg_id {
            Some(target_msg_id) => Some(ClearMsgTags { target_msg_id }),
            None => None,
        }
    }
}

} // verus!
