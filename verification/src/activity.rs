//! Activity events of the export.
use crate::json::{
    field, field_views, lemma_object_view, member_models, text_at, text_pairs, texts_of, Field,
    FieldView, Json, JsonModel,
};
use crate::text::same_text;
use vstd::prelude::*;

verus! {

/// The four categories under which the export groups its activity events.
#[derive(Clone, Copy, Debug, PartialEq, Eq, Structural)]
pub enum ActivityType {
    Analytics,
    Modeling,
    Reporting,
    Tns,
}

impl ActivityType {
    /// The name of the category's directory in the export.
    pub open spec fn dir_text(self) -> Seq<char> {
        match self {
            ActivityType::Analytics => "analytics"@,
            ActivityType::Modeling => "modeling"@,
            ActivityType::Reporting => "reporting"@,
            ActivityType::Tns => "tns"@,
        }
    }

    /// The text that stands for the category in the store.
    pub open spec fn store_text(self) -> Seq<char> {
        match self {
            ActivityType::Analytics => "Analytics"@,
            ActivityType::Modeling => "Modeling"@,
            ActivityType::Reporting => "Reporting"@,
            ActivityType::Tns => "Tns"@,
        }
    }

    /// The name of the category's directory in the export.
    pub fn dir_name(self) -> (name: &'static str)
        ensures
            name@ == self.dir_text(),
    {
        match self {
            ActivityType::Analytics => "analytics",
            ActivityType::Modeling => "modeling",
            ActivityType::Reporting => "reporting",
            ActivityType::Tns => "tns",
        }
    }

    /// The text that stands for the category in the store.
    pub fn store_name(self) -> (name: &'static str)
        ensures
            name@ == self.store_text(),
    {
        match self {
            ActivityType::Analytics => "Analytics",
            ActivityType::Modeling => "Modeling",
            ActivityType::Reporting => "Reporting",
            ActivityType::Tns => "Tns",
        }
    }

    /// The category that a text of the store stands for.
    pub fn from_store_name(name: &str) -> (r: Option<ActivityType>)
        ensures
            match r {
                Some(t) => name@ == t.store_text(),
                None => forall|t: ActivityType| name@ != t.store_text(),
            },
    {
        if same_text(name, "Analytics") {
            Some(ActivityType::Analytics)
        } else if same_text(name, "Modeling") {
            Some(ActivityType::Modeling)
        } else if same_text(name, "Reporting") {
            Some(ActivityType::Reporting)
        } else if same_text(name, "Tns") {
            Some(ActivityType::Tns)
        } else {
            None
        }
    }
}

/// The texts of the store tell the four categories apart.
pub proof fn lemma_store_text_injective(a: ActivityType, b: ActivityType)
    requires
        a.store_text() == b.store_text(),
    ensures
        a == b,
{
    reveal_strlit("Analytics");
    reveal_strlit("Modeling");
    reveal_strlit("Reporting");
    reveal_strlit("Tns");
    assert("Analytics"@[0] == 'A');
    assert("Modeling"@[0] == 'M');
    assert("Reporting"@[0] == 'R');
    assert("Tns"@[0] == 'T');
}

/// One activity event.
#[derive(Debug)]
pub struct Activity {
    pub event_type: String,
    pub event_id: String,
    pub user_id: String,
    pub domain: String,
    pub accepted_languages: Vec<String>,
    pub accepted_languages_weighted: Vec<String>,
    pub client_send_timestamp: String,
    pub client_track_timestamp: String,
    pub timestamp: String,
    /// Every member of the event that has no field of its own above: its name, and its
    /// value as JSON text.
    pub other: Vec<(String, String)>,
}

/// The mathematical value of an [`Activity`].
pub struct ActivityView {
    pub event_type: Seq<char>,
    pub event_id: Seq<char>,
    pub user_id: Seq<char>,
    pub domain: Seq<char>,
    pub accepted_languages: Seq<Seq<char>>,
    pub accepted_languages_weighted: Seq<Seq<char>>,
    pub client_send_timestamp: Seq<char>,
    pub client_track_timestamp: Seq<char>,
    pub timestamp: Seq<char>,
    pub other: Seq<(Seq<char>, Seq<char>)>,
}

impl View for Activity {
    type V = ActivityView;

    open spec fn view(&self) -> ActivityView {
        ActivityView {
            event_type: self.event_type@,
            event_id: self.event_id@,
            user_id: self.user_id@,
            domain: self.domain@,
            accepted_languages: self.accepted_languages.deep_view(),
            accepted_languages_weighted: self.accepted_languages_weighted.deep_view(),
            client_send_timestamp: self.client_send_timestamp@,
            client_track_timestamp: self.client_track_timestamp@,
            timestamp: self.timestamp@,
            other: text_pairs(self.other@),
        }
    }
}

/// The values of a sequence of activity events.
pub open spec fn activity_views(activities: Seq<Activity>) -> Seq<ActivityView> {
    Seq::new(activities.len(), |i: int| activities[i]@)
}

/// Whether a member of an event has a field of its own in [`Activity`].
pub open spec fn is_modeled(name: Seq<char>) -> bool {
    ||| name == "event_type"@
    ||| name == "event_id"@
    ||| name == "user_id"@
    ||| name == "domain"@
    ||| name == "accepted_languages"@
    ||| name == "accepted_languages_weighted"@
    ||| name == "client_send_timestamp"@
    ||| name == "client_track_timestamp"@
    ||| name == "timestamp"@
}

/// The names and values of the fields.
pub open spec fn field_members(fields: Seq<FieldView>) -> Seq<(Seq<char>, JsonModel)> {
    Seq::new(fields.len(), |i: int| (fields[i].name, fields[i].value))
}

/// The fields that have no field of their own in [`Activity`], in their order, each with
/// its name and the text of its value.
pub open spec fn unmodeled(fields: Seq<FieldView>) -> Seq<(Seq<char>, Seq<char>)>
    decreases fields.len(),
{
    if fields.len() == 0 {
        Seq::empty()
    } else if is_modeled(fields.last().name) {
        unmodeled(fields.drop_last())
    } else {
        unmodeled(fields.drop_last()).push((fields.last().name, fields.last().text))
    }
}

/// The texts of a member that has to be an array of strings.
pub open spec fn texts_at(m: JsonModel, key: Seq<char>) -> Option<Seq<Seq<char>>> {
    match field(m, key) {
        Some(list) => texts_of(list),
        None => None,
    }
}

/// Whether a JSON value has every modeled member of an event, each of its kind.
pub open spec fn has_activity_members(m: JsonModel) -> bool {
    &&& text_at(m, "event_type"@) is Some
    &&& text_at(m, "event_id"@) is Some
    &&& text_at(m, "user_id"@) is Some
    &&& text_at(m, "domain"@) is Some
    &&& texts_at(m, "accepted_languages"@) is Some
    &&& texts_at(m, "accepted_languages_weighted"@) is Some
    &&& text_at(m, "client_send_timestamp"@) is Some
    &&& text_at(m, "client_track_timestamp"@) is Some
    &&& text_at(m, "timestamp"@) is Some
}

/// The event that the fields of an object describe: the strings `event_type`,
/// `event_id`, `user_id`, `domain`, `client_send_timestamp`, `client_track_timestamp` and
/// `timestamp` and the arrays of strings `accepted_languages` and
/// `accepted_languages_weighted`. Every other field is kept in `other`, with its name
/// and the text of its value.
pub open spec fn activity_of(fields: Seq<FieldView>) -> Option<ActivityView> {
    let m = JsonModel::Object(field_members(fields));
    if has_activity_members(m) {
        Some(
            ActivityView {
                event_type: text_at(m, "event_type"@)->0,
                event_id: text_at(m, "event_id"@)->0,
                user_id: text_at(m, "user_id"@)->0,
                domain: text_at(m, "domain"@)->0,
                accepted_languages: texts_at(m, "accepted_languages"@)->0,
                accepted_languages_weighted: texts_at(m, "accepted_languages_weighted"@)->0,
                client_send_timestamp: text_at(m, "client_send_timestamp"@)->0,
                client_track_timestamp: text_at(m, "client_track_timestamp"@)->0,
                timestamp: text_at(m, "timestamp"@)->0,
                other: unmodeled(fields),
            },
        )
    } else {
        None
    }
}

/// A field of an event that has no field of its own in [`Activity`] is kept in `other`,
/// with its name and the text of its value: nothing of it is lost or changed.
pub proof fn lemma_unmodeled_keeps(fields: Seq<FieldView>, i: int)
    requires
        0 <= i < fields.len(),
        !is_modeled(fields[i].name),
    ensures
        unmodeled(fields).contains((fields[i].name, fields[i].text)),
    decreases fields.len(),
{
    let x = (fields[i].name, fields[i].text);
    if i == fields.len() - 1 {
        let rest = unmodeled(fields.drop_last());
        assert(rest.push(x)[rest.len() as int] == x);
    } else {
        lemma_unmodeled_keeps(fields.drop_last(), i);
        let rest = unmodeled(fields.drop_last());
        let k = choose|k: int| 0 <= k < rest.len() && rest[k] == x;
        if !is_modeled(fields.last().name) {
            assert(rest.push((fields.last().name, fields.last().text))[k] == x);
        }
    }
}

/// Whether a member of an event has a field of its own in [`Activity`].
pub fn is_modeled_name(name: &str) -> (modeled: bool)
    ensures
        modeled == is_modeled(name@),
{
    same_text(name, "event_type") || same_text(name, "event_id") || same_text(name, "user_id")
        || same_text(name, "domain") || same_text(name, "accepted_languages") || same_text(
        name,
        "accepted_languages_weighted",
    ) || same_text(name, "client_send_timestamp") || same_text(name, "client_track_timestamp")
        || same_text(name, "timestamp")
}

impl Activity {
    /// Decodes an event from the fields of an object; `None` where they do not describe
    /// one.
    pub fn from_fields(fields: &Vec<Field>) -> (r: Option<Activity>)
        ensures
            match r {
                Some(activity) => activity_of(field_views(fields@)) == Some(activity@),
                None => activity_of(field_views(fields@)) is None,
            },
    {
        let ghost all = field_views(fields@);
        let mut members: Vec<(String, Json)> = Vec::new();
        let mut other: Vec<(String, String)> = Vec::new();
        let mut i: usize = 0;
        proof {
            assert(all.take(0) =~= Seq::empty());
            assert(text_pairs(other@) =~= Seq::empty());
        }
        while i < fields.len()
            invariant
                i <= fields.len(),
                all == field_views(fields@),
                members@.len() == i,
                forall|k: int|
                    0 <= k < i ==> (#[trigger] members@[k]).0@ == all[k].name && members@[k].1@
                        == all[k].value,
                text_pairs(other@) == unmodeled(all.take(i as int)),
            decreases fields.len() - i,
        {
            proof {
                let next = all.take(i + 1);
                assert(next.drop_last() == all.take(i as int));
                assert(next.last() == all[i as int]);
            }
            members.push((fields[i].name.clone(), fields[i].value.copy()));
            if !is_modeled_name(fields[i].name.as_str()) {
                let ghost before = text_pairs(other@);
                other.push((fields[i].name.clone(), fields[i].text.clone()));
                assert(text_pairs(other@) =~= before.push((all[i as int].name, all[i as int].text)));
            }
            i += 1;
        }
        proof {
            assert(all.take(fields@.len() as int) == all);
            lemma_object_view(members);
            assert(member_models(members@) =~= field_members(all));
        }
        let j = Json::Object(members);
        let event_type = j.text_field("event_type")?;
        let event_id = j.text_field("event_id")?;
        let user_id = j.text_field("user_id")?;
        let domain = j.text_field("domain")?;
        let accepted_languages = j.get("accepted_languages")?.texts()?;
        let accepted_languages_weighted = j.get("accepted_languages_weighted")?.texts()?;
        let client_send_timestamp = j.text_field("client_send_timestamp")?;
        let client_track_timestamp = j.text_field("client_track_timestamp")?;
        let timestamp = j.text_field("timestamp")?;
        Some(
            Activity {
                event_type,
                event_id,
                user_id,
                domain,
                accepted_languages,
                accepted_languages_weighted,
                client_send_timestamp,
                client_track_timestamp,
                timestamp,
                other,
            },
        )
    }
}

} // verus!
