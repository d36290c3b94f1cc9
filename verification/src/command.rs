//! The commands that a client sends to the trusted applications, by number.
use vstd::prelude::*;

verus! {

/// Commands of the file-storage trusted application.
#[derive(PartialEq, Eq, Structural, Clone, Copy, Debug)]
pub enum FileCommand {
    Nothing,
    CreateFile,
    ReadFile,
    DeleteFile,
    Unknown,
}

/// Commands of the TLS-server trusted application.
#[derive(PartialEq, Eq, Structural, Clone, Copy, Debug)]
pub enum ServerCommand {
    DeployServer,
    Unknown,
}

/// The command that the number `id` stands for: commands are numbered from
/// 0 in the order `Nothing`, `CreateFile`, `ReadFile`, `DeleteFile`; any
/// other number is unknown.
pub open spec fn file_command_of(id: u32) -> FileCommand {
    if id == 0 {
        FileCommand::Nothing
    } else if id == 1 {
        FileCommand::CreateFile
    } else if id == 2 {
        FileCommand::ReadFile
    } else if id == 3 {
        FileCommand::DeleteFile
    } else {
        FileCommand::Unknown
    }
}

/// The number of a known file command.
pub open spec fn file_command_id(c: FileCommand) -> u32 {
    match c {
        FileCommand::Nothing => 0,
        FileCommand::CreateFile => 1,
        FileCommand::ReadFile => 2,
        FileCommand::DeleteFile => 3,
        FileCommand::Unknown => 4,
    }
}

/// The command that the number `id` stands for: 0 deploys the server; any
/// other number is unknown.
pub open spec fn server_command_of(id: u32) -> ServerCommand {
    if id == 0 {
        ServerCommand::DeployServer
    } else {
        ServerCommand::Unknown
    }
}

impl FileCommand {
    /// The command that the number `id` stands for.
    pub fn from_id(id: u32) -> (r: FileCommand)
        ensures
            r == file_command_of(id),
    {
        if id == 0 {
            FileCommand::Nothing
        } else if id == 1 {
            FileCommand::CreateFile
        } else if id == 2 {
            FileCommand::ReadFile
        } else if id == 3 {
            FileCommand::DeleteFile
        } else {
            FileCommand::Unknown
        }
    }

    /// The number that a client sends for this command.
    pub fn id(self) -> (r: u32)
        requires
            self != FileCommand::Unknown,
        ensures
            r == file_command_id(self),
    {
        match self {
            FileCommand::Nothing => 0,
            FileCommand::CreateFile => 1,
            FileCommand::ReadFile => 2,
            FileCommand::DeleteFile => 3,
            FileCommand::Unknown => 4,
        }
    }
}

impl ServerCommand {
    /// The command that the number `id` stands for.
    pub fn from_id(id: u32) -> (r: ServerCommand)
        ensures
            r == server_command_of(id),
    {
        if id == 0 {
            ServerCommand::DeployServer
        } else {
            ServerCommand::Unknown
        }
    }

    /// The number that a client sends for this command.
    pub fn id(self) -> (r: u32)
        requires
            self != ServerCommand::Unknown,
        ensures
            server_command_of(r) == self,
            r == 0,
    {
        0
    }
}

/// A known command's number stands for that command, and every number
/// below 4 is the number of the command it stands for: what a client sends
/// is what the trusted application runs.
pub proof fn lemma_file_command_ids(c: FileCommand, id: u32)
    ensures
        c != FileCommand::Unknown ==> file_command_of(file_command_id(c)) == c,
        id < 4 ==> file_command_id(file_command_of(id)) == id,
        id >= 4 ==> file_command_of(id) == FileCommand::Unknown,
{
}

/// Each file command has exactly one number: 0 does nothing, 1 creates a
/// file, 2 reads one and 3 deletes one, and no other number stands for any
/// of them.
pub proof fn lemma_file_command_numbers(id: u32)
    ensures
        file_command_of(id) == FileCommand::Nothing <==> id == 0,
        file_command_of(id) == FileCommand::CreateFile <==> id == 1,
        file_command_of(id) == FileCommand::ReadFile <==> id == 2,
        file_command_of(id) == FileCommand::DeleteFile <==> id == 3,
        file_command_of(id) == FileCommand::Unknown <==> id > 3,
{
}

/// Only the number 0 deploys the server: every other number is an unknown
/// command, which the trusted application refuses.
pub proof fn lemma_server_command_numbers(id: u32)
    ensures
        server_command_of(id) == ServerCommand::DeployServer <==> id == 0,
        id != 0 ==> server_command_of(id) == ServerCommand::Unknown,
{
}

} // verus!
