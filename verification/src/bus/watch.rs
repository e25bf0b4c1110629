//! Watching the configuration file: it is looked at again and again, and rooms are told what it
//! says of them where this has changed.

use vstd::prelude::*;

use crate::config::{Config, ConfigError, YamlConfig};
use crate::model::HasModel;
use crate::rooms::RoomConfig;

use super::policy::config_changed;

verus! {

/// What came of an attempt to read the configuration file.
#[derive(Debug, PartialEq, Eq)]
pub enum FileRead {
    /// The file says this, or its text cannot be understood.
    Text(Result<YamlConfig, String>),
    /// There is no such file.
    Missing,
    /// There is one, but it cannot be read.
    Unreadable,
}

/// What is to be done after the configuration file was looked at.
#[derive(Debug, PartialEq, Eq)]
pub enum WatchStep {
    /// The rooms are told of this, and it is in effect from now on.
    Tell(RoomConfig),
    /// Nothing.
    Keep,
    /// There is no file, and there never was one: what is so by default is kept.
    NeverFound,
    /// The file was refused: what is in effect is kept.
    Refuse(ConfigError),
}

/// Who may watch in rooms by what was read, if it can be understood: what the file does not say is
/// so by default.
pub open spec fn read_monitors(read: FileRead) -> Option<Seq<i32>> {
    match read {
        FileRead::Text(yaml) => match crate::config::yaml_error(yaml, None) {
            Some(_) => None,
            None => Some(yaml->Ok_0.over(crate::config::default_config()).monitors),
        },
        _ => None,
    }
}

/// What the rooms were told last, after the file was looked at once more.
pub open spec fn told_after(last: Option<Seq<i32>>, read: FileRead) -> Option<Seq<i32>> {
    match read_monitors(read) {
        Some(monitors) => Some(monitors),
        None => last,
    }
}

/// What the rooms are told when the file was looked at once more, if anything.
pub open spec fn news(last: Option<Seq<i32>>, read: FileRead) -> Option<Seq<i32>> {
    match read_monitors(read) {
        Some(monitors) if last != Some(monitors) => Some(monitors),
        _ => None,
    }
}

/// Watches the configuration file.
pub struct ConfigWatch {
    last: Option<RoomConfig>,
}

impl View for ConfigWatch {
    type V = Option<Seq<i32>>;

    /// What the rooms were told last.
    closed spec fn view(&self) -> Option<Seq<i32>> {
        self.last.model()
    }
}

impl ConfigWatch {
    /// Nothing was told yet.
    pub fn new() -> (res: Self)
        ensures
            res@ is None,
    {
        ConfigWatch { last: None }
    }

    /// Finds out what is to be done after the file at `path` was looked at. Rooms are told what it
    /// says of them if they were not told this last. A file that is not there, or cannot be read or
    /// understood, changes nothing.
    pub fn poll(&mut self, read: FileRead, path: &str) -> (step: WatchStep)
        requires
            read matches FileRead::Text(Ok(file)) ==> file.can_be_taken(),
        ensures
            final(self)@ == told_after(old(self)@, read),
            match step {
                WatchStep::Tell(config) => news(old(self)@, read) == Some(config.monitors@),
                _ => news(old(self)@, read) is None,
            },
            step is Refuse <==> (read matches FileRead::Text(yaml) && crate::config::yaml_error(
                yaml,
                Some(path),
            ) is Some),
            step matches WatchStep::Refuse(e) ==> Some(e@) == crate::config::yaml_error(
                read->Text_0,
                Some(path),
            ),
            step is NeverFound <==> read is Missing && old(self)@ is None,
    {
        match read {
            FileRead::Text(yaml) => {
                let mut config: Config = Config::default();
                match config.apply_yaml(yaml, Some(path)) {
                    Err(e) => WatchStep::Refuse(e),
                    Ok(()) => {
                        if config_changed(self.last.as_ref(), &config.rooms) {
                            self.last = Some(config.rooms.clone());
                            WatchStep::Tell(config.rooms)
                        } else {
                            WatchStep::Keep
                        }
                    },
                }
            },
            FileRead::Missing => if self.last.is_none() {
                WatchStep::NeverFound
            } else {
                WatchStep::Keep
            },
            FileRead::Unreadable => WatchStep::Keep,
        }
    }
}

/// What the rooms were told last, after the file was looked at several times.
pub open spec fn told_last(reads: Seq<FileRead>) -> Option<Seq<i32>>
    decreases reads.len(),
{
    if reads.len() == 0 {
        None
    } else {
        told_after(told_last(reads.drop_last()), reads.last())
    }
}

/// All that the rooms were told, after the file was looked at several times.
pub open spec fn told(reads: Seq<FileRead>) -> Seq<Seq<i32>>
    decreases reads.len(),
{
    if reads.len() == 0 {
        Seq::empty()
    } else {
        let before = told(reads.drop_last());
        match news(told_last(reads.drop_last()), reads.last()) {
            Some(monitors) => before.push(monitors),
            None => before,
        }
    }
}

/// What the last file that was understood says of rooms.
pub open spec fn last_understood(reads: Seq<FileRead>) -> Option<Seq<i32>>
    decreases reads.len(),
{
    if reads.len() == 0 {
        None
    } else {
        match read_monitors(reads.last()) {
            Some(monitors) => Some(monitors),
            None => last_understood(reads.drop_last()),
        }
    }
}

/// However often the file was looked at, the rooms were told last what the last file says that
/// was understood; they were told nothing if there was none.
pub proof fn rooms_know_the_last_file(reads: Seq<FileRead>)
    ensures
        told_last(reads) == last_understood(reads),
        match last_understood(reads) {
            Some(monitors) => told(reads).len() > 0 && told(reads).last() == monitors,
            None => told(reads).len() == 0,
        },
    decreases reads.len(),
{
    if reads.len() > 0 {
        rooms_know_the_last_file(reads.drop_last());
    }
}

/// Rooms are told when the file is looked at if and only if it is understood and says something
/// else than they were told last, or they were told nothing yet.
pub proof fn rooms_are_told_of_changes(reads: Seq<FileRead>, read: FileRead)
    ensures
        told(reads.push(read)) == match read_monitors(read) {
            Some(monitors) => if told(reads).len() == 0 || told(reads).last() != monitors {
                told(reads).push(monitors)
            } else {
                told(reads)
            },
            None => told(reads),
        },
{
    assert(reads.push(read).drop_last() =~= reads);
    rooms_know_the_last_file(reads);
}

/// Rooms are never told the same twice in a row.
pub proof fn rooms_are_told_no_news_twice(reads: Seq<FileRead>, i: int)
    requires
        0 <= i < told(reads).len() - 1,
    ensures
        told(reads)[i] != told(reads)[i + 1],
    decreases reads.len(),
{
    let front = reads.drop_last();
    rooms_know_the_last_file(front);
    if i < told(front).len() - 1 {
        rooms_are_told_no_news_twice(front, i);
    }
}

/// A file that is not there, or cannot be read or understood, changes nothing.
pub proof fn broken_files_change_nothing(reads: Seq<FileRead>, read: FileRead)
    requires
        read_monitors(read) is None,
    ensures
        told(reads.push(read)) == told(reads),
        told_last(reads.push(read)) == told_last(reads),
{
    assert(reads.push(read).drop_last() =~= reads);
}

} // verus!
