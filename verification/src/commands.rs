//! The arguments of the interface's commands, one struct per shape. The
//! interface sends them with camel-case keys; the application shell reads
//! them into these types and hands their fields to the library.
use vstd::prelude::*;

verus! {

/// A name for something new.
pub struct NameArgs {
    pub name: String,
}

/// A new name for the item with `id`.
pub struct RenameArgs {
    pub id: String,
    pub name: String,
}

/// The id of one item.
pub struct IdArgs {
    pub id: String,
}

/// Which artifact to delete. When `delete_audio` is true the library's own
/// copy of a recording's audio goes too; the file a user imported from is
/// never touched. An absent `delete_audio` reads as false.
pub struct DeleteArtifactArgs {
    pub id: String,
    pub delete_audio: bool,
}

/// A new topic under an organization.
pub struct CreateTopicArgs {
    pub organization_id: String,
    pub name: String,
}

/// A new meeting group under a topic, with the time it took place if known.
pub struct CreateGroupArgs {
    pub topic_id: String,
    pub name: String,
    pub occurred_at: Option<String>,
}

/// The id of one meeting group.
pub struct GroupIdArgs {
    pub meeting_group_id: String,
}

/// A file on disk to import into a meeting group.
pub struct ImportFileArgs {
    pub meeting_group_id: String,
    pub path: String,
}

/// Where to write the audio of an artifact.
pub struct ExportArtifactAudioArgs {
    pub id: String,
    pub dest_path: String,
}

/// Where to write the transcript of an artifact.
pub struct ExportArtifactTranscriptArgs {
    pub id: String,
    pub dest_path: String,
}

/// The id of one artifact, for the commands on its comments.
pub struct ArtifactIdArgs {
    pub artifact_id: String,
}

/// A new comment at `time_ms` into an artifact's recording.
pub struct CreateCommentArgs {
    pub artifact_id: String,
    pub time_ms: i64,
    pub body: String,
}

/// New text for the comment with `id`.
pub struct UpdateCommentArgs {
    pub id: String,
    pub body: String,
}

/// An OpenAI API key to keep in the keychain.
pub struct ApiKeyArgs {
    pub api_key: String,
}

/// A question asked of the transcripts in a scope.
pub struct ChatAskArgs {
    pub scope_type: String,
    pub scope_id: String,
    pub question: String,
}

/// Which meeting group to record into, and from which source.
pub struct StartRecordingArgs {
    pub meeting_group_id: String,
    pub source: String,
}

} // verus!
