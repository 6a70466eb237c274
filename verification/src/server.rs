//! The remote transport: an SSH server holding the backup artifacts.
//! Opening the TCP connection and authenticating stay outside the
//! library; every method here takes the established session, runs one
//! remote command through trusted wrappers, and interprets exit status
//! and output in verified code.

use vstd::prelude::*;
use crate::errors::TransportError;
use crate::retention::RetentionPolicy;
use crate::text::{
    ends_with, lines_of, split_lines, starts_with, str_ends_with, str_starts_with,
    strip_prefix_all, trim_start_matches_str,
};

verus! {

#[verifier::external_type_specification]
#[verifier::external_body]
pub struct ExSession(ssh2::Session);

#[verifier::external_type_specification]
#[verifier::external_body]
pub struct ExChannel(ssh2::Channel);

#[verifier::external_type_specification]
#[verifier::external_body]
pub struct ExSshError(ssh2::Error);

#[verifier::external_type_specification]
#[verifier::external_body]
pub struct ExIoError(std::io::Error);

/// Relies on ssh2::Session::channel_session to open a channel for one
/// remote command.
#[verifier::external_body]
fn open_channel(sess: &ssh2::Session) -> (r: Result<ssh2::Channel, ssh2::Error>) {
    sess.channel_session()
}

/// Relies on ssh2::Channel::exec to start `command` on the remote side.
#[verifier::external_body]
fn channel_exec(ch: &mut ssh2::Channel, command: &str) -> (r: Result<(), ssh2::Error>) {
    ch.exec(command)
}

/// Relies on std's Read::read_to_string to drain the channel's output.
#[verifier::external_body]
fn channel_read_to_string(ch: &mut ssh2::Channel) -> (r: Result<String, std::io::Error>) {
    let mut out = String::new();
    match std::io::Read::read_to_string(ch, &mut out) {
        Ok(_) => Ok(out),
        Err(e) => Err(e),
    }
}

/// Relies on ssh2::Channel::wait_close to wait for the remote command to
/// finish.
#[verifier::external_body]
fn channel_wait_close(ch: &mut ssh2::Channel) -> (r: Result<(), ssh2::Error>) {
    ch.wait_close()
}

/// Relies on ssh2::Channel::exit_status for the remote command's exit
/// status.
#[verifier::external_body]
fn channel_exit_status(ch: &ssh2::Channel) -> (r: Result<i32, ssh2::Error>) {
    ch.exit_status()
}

/// Relies on ssh2::Error::message for the error's text.
#[verifier::external_body]
fn ssh_error_message(e: &ssh2::Error) -> (r: String) {
    e.message().to_owned()
}

/// Relies on std's Display for std::io::Error for the error's text.
#[verifier::external_body]
fn io_error_message(e: &std::io::Error) -> (r: String) {
    format!("{}", e)
}

/// Connection settings for the remote transport.
#[derive(Clone)]
pub struct ServerConfig {
    pub server_ip: String,
    pub server_port: String,
    pub server_user: String,
    pub server_directory: String,
    pub ssh_key_path: String,
}

impl ServerConfig {
    /// Builds the configuration from the four environment variable values
    /// that configure the server, each `None` when unset, and the key
    /// path; the first missing variable is the reported error.
    pub fn new_from_env(
        server_ip: Option<String>,
        server_port: Option<String>,
        server_user: Option<String>,
        server_directory: Option<String>,
        ssh_key_path: String,
    ) -> (r: Result<Self, crate::errors::ConfigError>)
        ensures
            (server_ip is Some && server_port is Some && server_user is Some
                && server_directory is Some) <==> r is Ok,
            r matches Ok(c) ==> {
                &&& c.server_ip@ == server_ip.unwrap()@
                &&& c.server_port@ == server_port.unwrap()@
                &&& c.server_user@ == server_user.unwrap()@
                &&& c.server_directory@ == server_directory.unwrap()@
                &&& c.ssh_key_path@ == ssh_key_path@
            },
            r matches Err(e) ==> e is MissingVar,
    {
        let server_ip = match server_ip {
            Some(v) => v,
            None => {
                return Err(
                    crate::errors::ConfigError::MissingVar {
                        name: String::from_str("SERVER_IP"),
                    },
                );
            },
        };
        let server_port = match server_port {
            Some(v) => v,
            None => {
                return Err(
                    crate::errors::ConfigError::MissingVar {
                        name: String::from_str("SERVER_PORT"),
                    },
                );
            },
        };
        let server_user = match server_user {
            Some(v) => v,
            None => {
                return Err(
                    crate::errors::ConfigError::MissingVar {
                        name: String::from_str("SERVER_USER"),
                    },
                );
            },
        };
        let server_directory = match server_directory {
            Some(v) => v,
            None => {
                return Err(
                    crate::errors::ConfigError::MissingVar {
                        name: String::from_str("SERVER_DIRECTORY"),
                    },
                );
            },
        };
        Ok(Self { server_ip, server_port, server_user, server_directory, ssh_key_path })
    }
}

/// The remote artifact store, reached over an established SSH session.
pub struct Server {
    pub config: ServerConfig,
}

/// Runs one remote command over the session and hands back its exit
/// status and collected output; what they hold depends on the remote
/// side, so the callers' interpretation functions carry the exact
/// contracts.
fn run_remote_command(sess: &ssh2::Session, command: &str) -> (r: Result<
    (i32, String),
    TransportError,
>)
    ensures
        r matches Err(e) ==> (e is Ssh || e is Io),
{
    let mut ch = match open_channel(sess) {
        Ok(c) => c,
        Err(e) => {
            return Err(TransportError::Ssh { message: ssh_error_message(&e) });
        },
    };
    match channel_exec(&mut ch, command) {
        Ok(u) => u,
        Err(e) => {
            return Err(TransportError::Ssh { message: ssh_error_message(&e) });
        },
    };
    let output = match channel_read_to_string(&mut ch) {
        Ok(s) => s,
        Err(e) => {
            return Err(TransportError::Io { message: io_error_message(&e) });
        },
    };
    match channel_wait_close(&mut ch) {
        Ok(u) => u,
        Err(e) => {
            return Err(TransportError::Ssh { message: ssh_error_message(&e) });
        },
    };
    let status = match channel_exit_status(&ch) {
        Ok(s) => s,
        Err(e) => {
            return Err(TransportError::Ssh { message: ssh_error_message(&e) });
        },
    };
    Ok((status, output))
}

/// Interprets a listing command's outcome: on exit status zero, the
/// output's lines are the file names; any other status is a failure.
pub fn parse_list_output(exit_status: i32, output: &str) -> (r: Result<
    Vec<String>,
    TransportError,
>)
    ensures
        exit_status == 0 ==> (r matches Ok(files) && files.deep_view() == lines_of(output@)),
        exit_status != 0 ==> (r matches Err(e) && e is CommandFailed),
{
    if exit_status == 0 {
        Ok(split_lines(output))
    } else {
        Err(TransportError::CommandFailed { output: output.to_owned() })
    }
}

/// Interprets a delete command's outcome: exit status zero is success,
/// anything else fails with the command's output.
pub fn parse_delete_output(exit_status: i32, output: &str) -> (r: Result<(), TransportError>)
    ensures
        exit_status == 0 <==> r is Ok,
        r matches Err(e) ==> (e matches TransportError::CommandFailed { output: o } && o@
            == output@),
{
    if exit_status == 0 {
        Ok(())
    } else {
        Err(TransportError::CommandFailed { output: output.to_owned() })
    }
}

impl Server {
    /// A server handle over the given configuration.
    pub fn new(config: ServerConfig) -> (r: Self)
        ensures
            r.config == config,
    {
        Self { config }
    }

    /// The remote command that lists the backup directory.
    pub fn list_files_command(&self) -> (r: String)
        ensures
            r@ == "ls -1 "@ + self.config.server_directory@,
    {
        let mut s = String::new();
        s.append("ls -1 ");
        s.append(self.config.server_directory.as_str());
        proof {
            assert(s@ =~= "ls -1 "@ + self.config.server_directory@);
        }
        s
    }

    /// The remote command that deletes the artifact `file_name`, which
    /// lives under the server's backup directory.
    pub fn delete_file_command(&self, file_name: &str) -> (r: String)
        ensures
            r@ == "rm "@ + self.config.server_directory@ + "/"@ + file_name@,
    {
        let mut s = String::new();
        s.append("rm ");
        s.append(self.config.server_directory.as_str());
        s.append("/");
        s.append(file_name);
        proof {
            reveal_strlit("/");
            assert(s@ =~= "rm "@ + self.config.server_directory@ + "/"@ + file_name@);
        }
        s
    }

    /// The remote command that lists backup artifacts newest first.
    pub fn latest_backup_command(&self) -> (r: String)
        ensures
            r@ == "ls -t "@ + self.config.server_directory@ + "/backup-*.tar.gz"@,
    {
        let mut s = String::new();
        s.append("ls -t ");
        s.append(self.config.server_directory.as_str());
        s.append("/backup-*.tar.gz");
        proof {
            assert(s@ =~= "ls -t "@ + self.config.server_directory@ + "/backup-*.tar.gz"@);
        }
        s
    }

    /// Lists the file names in the server's backup directory. Whatever
    /// comes back, a success is the line list of some remote output.
    pub fn list_files(&self, sess: &ssh2::Session) -> (r: Result<Vec<String>, TransportError>)
        ensures
            r matches Ok(files) ==> exists|out: Seq<char>| files.deep_view() == lines_of(out),
            r matches Err(e) ==> (e is Ssh || e is Io || e is CommandFailed),
    {
        let command = self.list_files_command();
        let (status, output) = match run_remote_command(sess, command.as_str()) {
            Ok(p) => p,
            Err(e) => {
                return Err(e);
            },
        };
        let r = parse_list_output(status, output.as_str());
        proof {
            if status == 0 {
                assert(r.unwrap().deep_view() == lines_of(output@));
            }
        }
        r
    }

    /// Deletes `file_name` on the server; a non-zero remote exit status
    /// is reported with the command's output.
    pub fn delete_file(&self, sess: &ssh2::Session, file_name: &str) -> (r: Result<
        (),
        TransportError,
    >)
        ensures
            r matches Err(e) ==> (e is Ssh || e is Io || e is CommandFailed),
    {
        let command = self.delete_file_command(file_name);
        let (status, output) = match run_remote_command(sess, command.as_str()) {
            Ok(p) => p,
            Err(e) => {
                return Err(e);
            },
        };
        parse_delete_output(status, output.as_str())
    }

    /// Interprets the newest-first listing: a non-zero exit status is a
    /// hard failure; otherwise the first line, with every leading copy
    /// of the directory prefix removed, names the latest backup, and an
    /// empty listing means no backup exists.
    pub fn parse_latest_output(&self, exit_status: i32, output: &str) -> (r: Result<
        String,
        TransportError,
    >)
        ensures
            exit_status != 0 ==> (r matches Err(TransportError::CommandFailed { output: o })
                && o@ == output@),
            exit_status == 0 && lines_of(output@).len() > 0 ==> (r matches Ok(name) && name@
                == strip_prefix_all(
                lines_of(output@)[0],
                self.config.server_directory@ + "/"@,
            )),
            exit_status == 0 && lines_of(output@).len() == 0 ==> (r matches Err(e)
                && e is NoBackups),
    {
        proof {
            reveal_strlit("/");
        }
        if exit_status != 0 {
            return Err(TransportError::CommandFailed { output: output.to_owned() });
        }
        let lines = split_lines(output);
        if lines.len() == 0 {
            return Err(TransportError::NoBackups);
        }
        let mut prefix = String::new();
        prefix.append(self.config.server_directory.as_str());
        prefix.append("/");
        proof {
            assert(prefix@ =~= self.config.server_directory@ + "/"@);
            assert(prefix@.len() > 0);
            assert(lines.deep_view()[0] == lines@[0]@);
        }
        let name = trim_start_matches_str(lines[0].as_str(), prefix.as_str());
        Ok(name)
    }

    /// The name of the newest backup artifact on the server, out of a
    /// newest-first remote listing.
    pub fn get_latest_backup_file_name(&self, sess: &ssh2::Session) -> (r: Result<
        String,
        TransportError,
    >)
        ensures
            r matches Ok(name) ==> exists|out: Seq<char>|
                lines_of(out).len() > 0 && name@ == strip_prefix_all(
                    lines_of(out)[0],
                    self.config.server_directory@ + "/"@,
                ),
            r matches Err(e) ==> (e is Ssh || e is Io || e is CommandFailed || e is NoBackups),
    {
        let command = self.latest_backup_command();
        let (status, output) = match run_remote_command(sess, command.as_str()) {
            Ok(p) => p,
            Err(e) => {
                return Err(e);
            },
        };
        let r = self.parse_latest_output(status, output.as_str());
        proof {
            if status == 0 && lines_of(output@).len() > 0 {
                assert(r.unwrap()@ == strip_prefix_all(
                    lines_of(output@)[0],
                    self.config.server_directory@ + "/"@,
                ));
            }
        }
        r
    }
}

/// Keeps only the names shaped like backup artifacts: `backup-` in front,
/// `.tar.gz` at the end.
pub open spec fn spec_backup_named(names: Seq<Seq<char>>) -> Seq<Seq<char>>
    decreases names.len(),
{
    if names.len() == 0 {
        names
    } else {
        let rest = spec_backup_named(names.drop_last());
        if starts_with(names.last(), "backup-"@) && ends_with(names.last(), ".tar.gz"@) {
            rest.push(names.last())
        } else {
            rest
        }
    }
}

/// The deletions the retention policy owes for a remote listing: the
/// artifact-shaped names (`backup-` in front, `.tar.gz` at the end) are
/// handed to the retention engine with the clock reading `now`, and its
/// selection comes back in listing order.
pub fn select_deletions(files: &Vec<String>, retention: &RetentionPolicy, now: i64) -> (r: Vec<
    String,
>)
    ensures
        r.deep_view() == crate::engine::spec_backups_to_delete(
            spec_backup_named(files.deep_view()),
            retention.count as int,
            retention.period as int,
            now as int,
        ),
{
    let ghost all = files.deep_view();
    let mut backup_names: Vec<String> = Vec::new();
    let mut i: usize = 0;
    proof {
        assert(all.take(0) =~= Seq::<Seq<char>>::empty());
        assert(backup_names.deep_view() =~= Seq::<Seq<char>>::empty());
    }
    while i < files.len()
        invariant
            i <= files.len(),
            all == files.deep_view(),
            all.len() == files.len(),
            backup_names.deep_view() == spec_backup_named(all.take(i as int)),
        decreases files.len() - i,
    {
        proof {
            assert(all.take(i + 1).drop_last() =~= all.take(i as int));
            assert(all.take(i + 1).last() == all[i as int]);
            assert(all[i as int] == files@[i as int]@);
        }
        if str_starts_with(files[i].as_str(), "backup-") && str_ends_with(
            files[i].as_str(),
            ".tar.gz",
        ) {
            let ghost pre = backup_names.deep_view();
            backup_names.push(files[i].clone());
            proof {
                assert(backup_names.deep_view() =~= pre.push(all[i as int]));
            }
        }
        i = i + 1;
    }
    proof {
        assert(all.take(i as int) =~= all);
    }
    crate::engine::filter_backups_to_delete(backup_names, retention, now)
}

/// Lists the remote backup directory, computes the owed deletions with
/// `select_deletions`, and issues a delete for every one of them, with
/// `now` the clock reading for the engine's age filter. A failed delete
/// does not stop the others: every selected name is attempted, and the
/// names whose deletion failed are reported together.
pub fn remove_old_backups(
    server: &Server,
    sess: &ssh2::Session,
    retention: &RetentionPolicy,
    now: i64,
) -> (r: Result<(), TransportError>)
    ensures
        r matches Err(e) ==> (e is Ssh || e is Io || e is CommandFailed || e is DeletesFailed),
        r matches Err(TransportError::DeletesFailed { names }) ==> names@.len() > 0,
{
    let files = match server.list_files(sess) {
        Ok(f) => f,
        Err(e) => {
            return Err(e);
        },
    };
    let to_delete = select_deletions(&files, retention, now);
    let mut failed: Vec<String> = Vec::new();
    let mut k: usize = 0;
    while k < to_delete.len()
        decreases to_delete.len() - k,
    {
        match server.delete_file(sess, to_delete[k].as_str()) {
            Ok(u) => u,
            Err(_) => {
                failed.push(to_delete[k].clone());
            },
        };
        k = k + 1;
    }
    if failed.len() > 0 {
        Err(TransportError::DeletesFailed { names: failed })
    } else {
        Ok(())
    }
}

} // verus!
