//! Channels of the export, with the messages they hold.
use crate::json::{field, int_at, text_at, texts_of, Json, JsonModel};
use crate::servers::{server_of, Server, ServerView};
use vstd::prelude::*;

verus! {

/// One channel, with its messages in the order of the export.
#[derive(Debug)]
pub struct Channel {
    pub id: String,
    pub name: Option<String>,
    pub channel_type: u8,
    pub recipients: Option<Vec<String>>,
    pub guild: Option<Server>,
    pub messages: Vec<Message>,
}

/// One message of a channel.
#[derive(Debug)]
pub struct Message {
    pub id: String,
    pub timestamp: String,
    pub contents: Option<String>,
    pub attachments: Option<String>,
}

/// What a channel's own description says of it.
#[derive(Debug)]
pub struct ChannelInfo {
    pub id: String,
    pub channel_type: u8,
    pub recipients: Option<Vec<String>>,
    pub guild: Option<Server>,
}

/// The mathematical value of a [`Message`].
pub struct MessageView {
    pub id: Seq<char>,
    pub timestamp: Seq<char>,
    pub contents: Option<Seq<char>>,
    pub attachments: Option<Seq<char>>,
}

/// The mathematical value of a [`ChannelInfo`].
pub struct ChannelInfoView {
    pub id: Seq<char>,
    pub channel_type: u8,
    pub recipients: Option<Seq<Seq<char>>>,
    pub guild: Option<ServerView>,
}

/// The mathematical value of a [`Channel`].
pub struct ChannelView {
    pub id: Seq<char>,
    pub name: Option<Seq<char>>,
    pub channel_type: u8,
    pub recipients: Option<Seq<Seq<char>>>,
    pub guild: Option<ServerView>,
    pub messages: Seq<MessageView>,
}

impl View for Message {
    type V = MessageView;

    open spec fn view(&self) -> MessageView {
        MessageView {
            id: self.id@,
            timestamp: self.timestamp@,
            contents: self.contents.deep_view(),
            attachments: self.attachments.deep_view(),
        }
    }
}

/// The values of a sequence of messages.
pub open spec fn message_views(messages: Seq<Message>) -> Seq<MessageView> {
    Seq::new(messages.len(), |i: int| messages[i]@)
}

/// The value of a server that may be missing.
pub open spec fn optional_server_view(server: Option<Server>) -> Option<ServerView> {
    match server {
        Some(server) => Some(server@),
        None => None,
    }
}

impl View for ChannelInfo {
    type V = ChannelInfoView;

    open spec fn view(&self) -> ChannelInfoView {
        ChannelInfoView {
            id: self.id@,
            channel_type: self.channel_type,
            recipients: self.recipients.deep_view(),
            guild: optional_server_view(self.guild),
        }
    }
}

impl View for Channel {
    type V = ChannelView;

    open spec fn view(&self) -> ChannelView {
        ChannelView {
            id: self.id@,
            name: self.name.deep_view(),
            channel_type: self.channel_type,
            recipients: self.recipients.deep_view(),
            guild: optional_server_view(self.guild),
            messages: message_views(self.messages@),
        }
    }
}

/// The values of a sequence of channels.
pub open spec fn channel_views(channels: Seq<Channel>) -> Seq<ChannelView> {
    Seq::new(channels.len(), |i: int| channels[i]@)
}

/// The recipients that a channel's description names: none where the member
/// `recipients` is left out or `null`, its texts where it is an array of strings, and
/// nothing at all where it is anything else.
pub open spec fn recipients_of(m: JsonModel) -> Option<Option<Seq<Seq<char>>>> {
    match field(m, "recipients"@) {
        None => Some(None),
        Some(JsonModel::Null) => Some(None),
        Some(list) => match texts_of(list) {
            Some(texts) => Some(Some(texts)),
            None => None,
        },
    }
}

/// The server that a channel's description names: none where the member `guild` is
/// left out or `null`, the server where it describes one, and nothing at all where it
/// is anything else.
pub open spec fn guild_of(m: JsonModel) -> Option<Option<ServerView>> {
    match field(m, "guild"@) {
        None => Some(None),
        Some(JsonModel::Null) => Some(None),
        Some(guild) => match server_of(guild) {
            Some(server) => Some(Some(server)),
            None => None,
        },
    }
}

/// The channel description that a JSON value holds: an object with the string `id`, the
/// integer `type` of 8 bits without sign, and the members `recipients` and `guild`,
/// which may be left out.
pub open spec fn channel_info_of(m: JsonModel) -> Option<ChannelInfoView> {
    if text_at(m, "id"@) is Some && int_at(m, "type"@, 0, 255) is Some && recipients_of(m) is Some
        && guild_of(m) is Some {
        Some(
            ChannelInfoView {
                id: text_at(m, "id"@)->0,
                channel_type: int_at(m, "type"@, 0, 255)->0 as u8,
                recipients: recipients_of(m)->0,
                guild: guild_of(m)->0,
            },
        )
    } else {
        None
    }
}

/// The channel made of its description, the name that the index gives it, and its
/// messages.
pub open spec fn channel_from_parts(
    info: ChannelInfoView,
    name: Option<Seq<char>>,
    messages: Seq<MessageView>,
) -> ChannelView {
    ChannelView {
        id: info.id,
        name,
        channel_type: info.channel_type,
        recipients: info.recipients,
        guild: info.guild,
        messages,
    }
}

impl ChannelInfo {
    /// Decodes a channel's description; `None` where the value holds none.
    pub fn from_json(j: &Json) -> (r: Option<ChannelInfo>)
        ensures
            match r {
                Some(info) => channel_info_of(j@) == Some(info@),
                None => channel_info_of(j@) is None,
            },
    {
        let id = j.text_field("id")?;
        let channel_type = j.int_field("type", 0, 255)?;
        let recipients = match j.get("recipients") {
            None => None,
            Some(Json::Null) => None,
            Some(list) => Some(list.texts()?),
        };
        let guild = match j.get("guild") {
            None => None,
            Some(Json::Null) => None,
            Some(guild) => Some(Server::from_json(guild)?),
        };
        Some(ChannelInfo { id, channel_type: channel_type as u8, recipients, guild })
    }
}

impl Channel {
    /// Puts a channel together from its description, the name that the index gives it,
    /// and its messages.
    pub fn from_parts(info: ChannelInfo, name: Option<String>, messages: Vec<Message>) -> (channel:
        Channel)
        ensures
            channel@ == channel_from_parts(info@, name.deep_view(), message_views(messages@)),
    {
        Channel {
            id: info.id,
            name,
            channel_type: info.channel_type,
            recipients: info.recipients,
            guild: info.guild,
            messages,
        }
    }
}

} // verus!
