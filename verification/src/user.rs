//! The account of the export, with the relationships it holds.
use crate::json::{
    bool_at, field, int_at, lemma_array_view, models, optional_text_at, text_at, Json, JsonModel,
};
use vstd::prelude::*;

verus! {

/// The account: who the export belongs to.
#[derive(Debug)]
pub struct User {
    pub id: String,
    pub username: String,
    pub discriminator: i32,
    pub email: String,
    pub verified: bool,
    pub avatar_hash: String,
    pub has_mobile: bool,
    pub needs_email_verification: bool,
    pub premium_until: Option<String>,
    pub flags: i64,
    pub phone: Option<String>,
    pub temp_banned_until: Option<String>,
    pub ip: String,
    pub user_profile_metadata: UserMetadata,
    pub relationships: Vec<Relationship>,
}

/// Profile metadata of the account.
#[derive(Debug)]
pub struct UserMetadata {
    pub user_id: String,
    pub boosting_started_at: Option<String>,
    pub premium_started_at: Option<String>,
}

/// One relationship of the account with another user.
#[derive(Debug)]
pub struct Relationship {
    pub id: String,
    pub relation_type: u32,
    pub nickname: Option<String>,
    pub user: RelationUser,
}

/// What a relationship records of the other user.
#[derive(Debug)]
pub struct RelationUser {
    pub id: String,
    pub username: String,
    pub avatar: Option<String>,
    pub avatar_decoration: Option<String>,
    pub discriminator: String,
    pub public_flags: u32,
}

/// The mathematical value of a [`User`].
pub struct UserView {
    pub id: Seq<char>,
    pub username: Seq<char>,
    pub discriminator: i32,
    pub email: Seq<char>,
    pub verified: bool,
    pub avatar_hash: Seq<char>,
    pub has_mobile: bool,
    pub needs_email_verification: bool,
    pub premium_until: Option<Seq<char>>,
    pub flags: i64,
    pub phone: Option<Seq<char>>,
    pub temp_banned_until: Option<Seq<char>>,
    pub ip: Seq<char>,
    pub user_profile_metadata: UserMetadataView,
    pub relationships: Seq<RelationshipView>,
}

/// The mathematical value of a [`UserMetadata`].
pub struct UserMetadataView {
    pub user_id: Seq<char>,
    pub boosting_started_at: Option<Seq<char>>,
    pub premium_started_at: Option<Seq<char>>,
}

/// The mathematical value of a [`Relationship`].
pub struct RelationshipView {
    pub id: Seq<char>,
    pub relation_type: u32,
    pub nickname: Option<Seq<char>>,
    pub user: RelationUserView,
}

/// The mathematical value of a [`RelationUser`].
pub struct RelationUserView {
    pub id: Seq<char>,
    pub username: Seq<char>,
    pub avatar: Option<Seq<char>>,
    pub avatar_decoration: Option<Seq<char>>,
    pub discriminator: Seq<char>,
    pub public_flags: u32,
}

impl View for RelationUser {
    type V = RelationUserView;

    open spec fn view(&self) -> RelationUserView {
        RelationUserView {
            id: self.id@,
            username: self.username@,
            avatar: self.avatar.deep_view(),
            avatar_decoration: self.avatar_decoration.deep_view(),
            discriminator: self.discriminator@,
            public_flags: self.public_flags,
        }
    }
}

impl View for Relationship {
    type V = RelationshipView;

    open spec fn view(&self) -> RelationshipView {
        RelationshipView {
            id: self.id@,
            relation_type: self.relation_type,
            nickname: self.nickname.deep_view(),
            user: self.user@,
        }
    }
}

impl View for UserMetadata {
    type V = UserMetadataView;

    open spec fn view(&self) -> UserMetadataView {
        UserMetadataView {
            user_id: self.user_id@,
            boosting_started_at: self.boosting_started_at.deep_view(),
            premium_started_at: self.premium_started_at.deep_view(),
        }
    }
}

/// The values of a sequence of relationships.
pub open spec fn relationship_views(relationships: Seq<Relationship>) -> Seq<RelationshipView> {
    Seq::new(relationships.len(), |i: int| relationships[i]@)
}

impl View for User {
    type V = UserView;

    open spec fn view(&self) -> UserView {
        UserView {
            id: self.id@,
            username: self.username@,
            discriminator: self.discriminator,
            email: self.email@,
            verified: self.verified,
            avatar_hash: self.avatar_hash@,
            has_mobile: self.has_mobile,
            needs_email_verification: self.needs_email_verification,
            premium_until: self.premium_until.deep_view(),
            flags: self.flags,
            phone: self.phone.deep_view(),
            temp_banned_until: self.temp_banned_until.deep_view(),
            ip: self.ip@,
            user_profile_metadata: self.user_profile_metadata@,
            relationships: relationship_views(self.relationships@),
        }
    }
}

/// The other user that a JSON value describes: an object with the strings `id`,
/// `username` and `discriminator`, the integer `public_flags` of 32 bits without sign,
/// and `avatar` and `avatar_decoration`, each a string, `null` or left out.
pub open spec fn relation_user_of(m: JsonModel) -> Option<RelationUserView> {
    if text_at(m, "id"@) is Some && text_at(m, "username"@) is Some && optional_text_at(
        m,
        "avatar"@,
    ) is Some && optional_text_at(m, "avatar_decoration"@) is Some && text_at(
        m,
        "discriminator"@,
    ) is Some && int_at(m, "public_flags"@, 0, u32::MAX as int) is Some {
        Some(
            RelationUserView {
                id: text_at(m, "id"@)->0,
                username: text_at(m, "username"@)->0,
                avatar: optional_text_at(m, "avatar"@)->0,
                avatar_decoration: optional_text_at(m, "avatar_decoration"@)->0,
                discriminator: text_at(m, "discriminator"@)->0,
                public_flags: int_at(m, "public_flags"@, 0, u32::MAX as int)->0 as u32,
            },
        )
    } else {
        None
    }
}

/// The relationship that a JSON value describes: an object with the string `id`, the
/// integer `type` of 32 bits without sign, the object `user`, and `nickname`, a string,
/// `null` or left out.
pub open spec fn relationship_of(m: JsonModel) -> Option<RelationshipView> {
    if text_at(m, "id"@) is Some && int_at(m, "type"@, 0, u32::MAX as int) is Some
        && optional_text_at(m, "nickname"@) is Some && field(m, "user"@) is Some
        && relation_user_of(field(m, "user"@)->0) is Some {
        Some(
            RelationshipView {
                id: text_at(m, "id"@)->0,
                relation_type: int_at(m, "type"@, 0, u32::MAX as int)->0 as u32,
                nickname: optional_text_at(m, "nickname"@)->0,
                user: relation_user_of(field(m, "user"@)->0)->0,
            },
        )
    } else {
        None
    }
}

/// The relationships that a JSON value describes: an array, each item a relationship.
pub open spec fn relationships_of(m: JsonModel) -> Option<Seq<RelationshipView>> {
    match m {
        JsonModel::Array(items) => if forall|i: int|
            0 <= i < items.len() ==> (#[trigger] relationship_of(items[i])) is Some {
            Some(Seq::new(items.len(), |i: int| relationship_of(items[i])->0))
        } else {
            None
        },
        _ => None,
    }
}

/// The profile metadata that a JSON value describes: an object with the string
/// `user_id`, and `boosting_started_at` and `premium_started_at`, each a string, `null`
/// or left out.
pub open spec fn user_metadata_of(m: JsonModel) -> Option<UserMetadataView> {
    if text_at(m, "user_id"@) is Some && optional_text_at(m, "boosting_started_at"@) is Some
        && optional_text_at(m, "premium_started_at"@) is Some {
        Some(
            UserMetadataView {
                user_id: text_at(m, "user_id"@)->0,
                boosting_started_at: optional_text_at(m, "boosting_started_at"@)->0,
                premium_started_at: optional_text_at(m, "premium_started_at"@)->0,
            },
        )
    } else {
        None
    }
}

/// Whether a JSON value has every plain member of an account, each of its kind.
pub open spec fn has_user_members(m: JsonModel) -> bool {
    &&& text_at(m, "id"@) is Some
    &&& text_at(m, "username"@) is Some
    &&& int_at(m, "discriminator"@, i32::MIN as int, i32::MAX as int) is Some
    &&& text_at(m, "email"@) is Some
    &&& bool_at(m, "verified"@) is Some
    &&& text_at(m, "avatar_hash"@) is Some
    &&& bool_at(m, "has_mobile"@) is Some
    &&& bool_at(m, "needs_email_verification"@) is Some
    &&& optional_text_at(m, "premium_until"@) is Some
    &&& int_at(m, "flags"@, i64::MIN as int, i64::MAX as int) is Some
    &&& optional_text_at(m, "phone"@) is Some
    &&& optional_text_at(m, "temp_banned_until"@) is Some
    &&& text_at(m, "ip"@) is Some
}

/// The account that a JSON value describes: an object with the strings `id`, `username`,
/// `email`, `avatar_hash` and `ip`, the integers `discriminator` (32 bits) and `flags`
/// (64 bits), the booleans `verified`, `has_mobile` and `needs_email_verification`, the
/// object `user_profile_metadata`, the array `relationships`, and `premium_until`,
/// `phone` and `temp_banned_until`, each a string, `null` or left out.
pub open spec fn user_of(m: JsonModel) -> Option<UserView> {
    if has_user_members(m) && field(m, "user_profile_metadata"@) is Some && user_metadata_of(
        field(m, "user_profile_metadata"@)->0,
    ) is Some && field(m, "relationships"@) is Some && relationships_of(
        field(m, "relationships"@)->0,
    ) is Some {
        Some(
            UserView {
                id: text_at(m, "id"@)->0,
                username: text_at(m, "username"@)->0,
                discriminator: int_at(m, "discriminator"@, i32::MIN as int, i32::MAX as int)->0
                    as i32,
                email: text_at(m, "email"@)->0,
                verified: bool_at(m, "verified"@)->0,
                avatar_hash: text_at(m, "avatar_hash"@)->0,
                has_mobile: bool_at(m, "has_mobile"@)->0,
                needs_email_verification: bool_at(m, "needs_email_verification"@)->0,
                premium_until: optional_text_at(m, "premium_until"@)->0,
                flags: int_at(m, "flags"@, i64::MIN as int, i64::MAX as int)->0 as i64,
                phone: optional_text_at(m, "phone"@)->0,
                temp_banned_until: optional_text_at(m, "temp_banned_until"@)->0,
                ip: text_at(m, "ip"@)->0,
                user_profile_metadata: user_metadata_of(field(m, "user_profile_metadata"@)->0)->0,
                relationships: relationships_of(field(m, "relationships"@)->0)->0,
            },
        )
    } else {
        None
    }
}

impl RelationUser {
    /// Decodes the other user of a relationship; `None` where the value describes none.
    pub fn from_json(j: &Json) -> (r: Option<RelationUser>)
        ensures
            match r {
                Some(user) => relation_user_of(j@) == Some(user@),
                None => relation_user_of(j@) is None,
            },
    {
        let id = j.text_field("id")?;
        let username = j.text_field("username")?;
        let avatar = j.optional_text_field("avatar")?;
        let avatar_decoration = j.optional_text_field("avatar_decoration")?;
        let discriminator = j.text_field("discriminator")?;
        let public_flags = j.int_field("public_flags", 0, 0xffff_ffff)?;
        Some(
            RelationUser {
                id,
                username,
                avatar,
                avatar_decoration,
                discriminator,
                public_flags: public_flags as u32,
            },
        )
    }
}

impl Relationship {
    /// Decodes a relationship; `None` where the value describes none.
    pub fn from_json(j: &Json) -> (r: Option<Relationship>)
        ensures
            match r {
                Some(relationship) => relationship_of(j@) == Some(relationship@),
                None => relationship_of(j@) is None,
            },
    {
        let id = j.text_field("id")?;
        let relation_type = j.int_field("type", 0, 0xffff_ffff)?;
        let nickname = j.optional_text_field("nickname")?;
        let user = RelationUser::from_json(j.get("user")?)?;
        Some(Relationship { id, relation_type: relation_type as u32, nickname, user })
    }

    /// Decodes an array of relationships; `None` where any item describes none.
    pub fn all_from_json(j: &Json) -> (r: Option<Vec<Relationship>>)
        ensures
            match r {
                Some(all) => relationships_of(j@) == Some(relationship_views(all@)),
                None => relationships_of(j@) is None,
            },
    {
        match j {
            Json::Array(items) => {
                proof {
                    lemma_array_view(*items);
                }
                let ghost all = models(items@);
                let mut out: Vec<Relationship> = Vec::new();
                let mut i: usize = 0;
                while i < items.len()
                    invariant
                        i <= items.len(),
                        out@.len() == i,
                        all == models(items@),
                        j@ == JsonModel::Array(all),
                        forall|k: int|
                            0 <= k < i ==> relationship_of(all[k]) == Some((#[trigger] out@[k])@),
                    decreases items.len() - i,
                {
                    assert(all[i as int] == items@[i as int]@);
                    match Relationship::from_json(&items[i]) {
                        Some(relationship) => {
                            out.push(relationship);
                        },
                        None => {
                            return None;
                        },
                    }
                    i += 1;
                }
                proof {
                    assert forall|k: int| 0 <= k < all.len() implies (#[trigger] relationship_of(
                        all[k],
                    )) is Some by {
                        assert(relationship_of(all[k]) == Some(out@[k]@));
                    }
                    assert(relationship_views(out@) =~= Seq::new(
                        all.len(),
                        |i: int| relationship_of(all[i])->0,
                    ));
                }
                Some(out)
            },
            _ => None,
        }
    }
}

impl UserMetadata {
    /// Decodes the profile metadata; `None` where the value describes none.
    pub fn from_json(j: &Json) -> (r: Option<UserMetadata>)
        ensures
            match r {
                Some(metadata) => user_metadata_of(j@) == Some(metadata@),
                None => user_metadata_of(j@) is None,
            },
    {
        let user_id = j.text_field("user_id")?;
        let boosting_started_at = j.optional_text_field("boosting_started_at")?;
        let premium_started_at = j.optional_text_field("premium_started_at")?;
        Some(UserMetadata { user_id, boosting_started_at, premium_started_at })
    }
}

impl User {
    /// Decodes the account; `None` where the value does not describe one.
    pub fn from_json(j: &Json) -> (r: Option<User>)
        ensures
            match r {
                Some(user) => user_of(j@) == Some(user@),
                None => user_of(j@) is None,
            },
    {
        let id = j.text_field("id")?;
        let username = j.text_field("username")?;
        let discriminator = j.int_field("discriminator", -0x8000_0000, 0x7fff_ffff)?;
        let email = j.text_field("email")?;
        let verified = j.bool_field("verified")?;
        let avatar_hash = j.text_field("avatar_hash")?;
        let has_mobile = j.bool_field("has_mobile")?;
        let needs_email_verification = j.bool_field("needs_email_verification")?;
        let premium_until = j.optional_text_field("premium_until")?;
        let flags = j.int_field("flags", i64::MIN, i64::MAX)?;
        let phone = j.optional_text_field("phone")?;
        let temp_banned_until = j.optional_text_field("temp_banned_until")?;
        let ip = j.text_field("ip")?;
        let user_profile_metadata = UserMetadata::from_json(j.get("user_profile_metadata")?)?;
        let relationships = Relationship::all_from_json(j.get("relationships")?)?;
        Some(
            User {
                id,
                username,
                discriminator: discriminator as i32,
                email,
                verified,
                avatar_hash,
                has_mobile,
                needs_email_verification,
                premium_until,
                flags,
                phone,
                temp_banned_until,
                ip,
                user_profile_metadata,
                relationships,
            },
        )
    }
}

/// A decoded account has one relationship for each item of the array `relationships`,
/// in the order of the items: none is left out, none is added.
pub proof fn lemma_relationships_are_kept(m: JsonModel)
    requires
        user_of(m) is Some,
    ensures
        field(m, "relationships"@) matches Some(JsonModel::Array(items)) && user_of(
            m,
        )->0.relationships.len() == items.len() && forall|i: int|
            0 <= i < items.len() ==> relationship_of(#[trigger] items[i]) == Some(
                user_of(m)->0.relationships[i],
            ),
{
}

} // verus!
