//! Where the settings and the log live.

use vstd::prelude::*;
use crate::paths::{PathStyle, join_spec, join_str};

verus! {

pub const USER_HOME_FOLDER: &'static str = "yuru-auto-backup-gdrive";

/// `yuru-auto-backup-gdrive`, the folder made in the user's home when the program folder
/// is not writable.
pub open spec fn user_home_folder() -> Seq<char> {
    seq![
        'y', 'u', 'r', 'u', '-', 'a', 'u', 't', 'o', '-', 'b', 'a', 'c', 'k', 'u', 'p', '-',
        'g', 'd', 'r', 'i', 'v', 'e',
    ]
}

pub open spec fn config_json() -> Seq<char> {
    seq!['c', 'o', 'n', 'f', 'i', 'g', '.', 'j', 's', 'o', 'n']
}

pub open spec fn logs() -> Seq<char> {
    seq!['l', 'o', 'g', 's']
}

pub open spec fn backup_log() -> Seq<char> {
    seq!['b', 'a', 'c', 'k', 'u', 'p', '.', 'l', 'o', 'g']
}

/// Why the data folder could not be set up.
#[derive(Debug, Clone, PartialEq, Eq)]
pub enum AppDirError {
    HomeNotFound,
    CreateFailed { path: String, message: String },
}

/// The data folder: `config.json` and `logs/backup.log` live below it.
pub struct AppDir {
    root: String,
    style: PathStyle,
}

impl AppDir {
    pub closed spec fn root_path(&self) -> Seq<char> {
        self.root@
    }

    pub closed spec fn path_style(&self) -> PathStyle {
        self.style
    }

    /// The data folder: the writable `data` folder beside the program when there is one
    /// (`portable_root`), otherwise `yuru-auto-backup-gdrive` in the user's home, taken
    /// from `USERPROFILE` or else `HOME`. Without any of them there is none.
    pub fn resolve(
        portable_root: Option<String>,
        user_profile: Option<String>,
        home: Option<String>,
    ) -> (r: Result<AppDir, AppDirError>)
        ensures
            match portable_root {
                Some(p) => r matches Ok(d) && d.root_path() == p@,
                None => match (user_profile, home) {
                    (None, None) => r == Err::<AppDir, AppDirError>(AppDirError::HomeNotFound),
                    (Some(h), _) => r matches Ok(d) && d.root_path() == join_spec(
                        h@,
                        user_home_folder(),
                        d.path_style(),
                    ),
                    (None, Some(h)) => r matches Ok(d) && d.root_path() == join_spec(
                        h@,
                        user_home_folder(),
                        d.path_style(),
                    ),
                },
            },
            r matches Ok(d) ==> d.path_style().separator == '/' || d.path_style().separator
                == '\\',
    {
        let style = PathStyle::native();
        if let Some(p) = portable_root {
            return Ok(AppDir { root: p, style });
        }
        let h = match user_profile {
            Some(h) => h,
            None => match home {
                Some(h) => h,
                None => return Err(AppDirError::HomeNotFound),
            },
        };
        let folder = USER_HOME_FOLDER;
        proof {
            reveal_strlit("yuru-auto-backup-gdrive");
            assert(folder@ =~= user_home_folder());
        }
        Ok(AppDir { root: join_str(h.as_str(), folder, style), style })
    }

    /// The data folder at `root`.
    pub fn at(root: String) -> (r: AppDir)
        ensures
            r.root_path() == root@,
            r.path_style().separator == '/' || r.path_style().separator == '\\',
    {
        AppDir { root, style: PathStyle::native() }
    }

    pub fn root(&self) -> (r: &str)
        ensures
            r@ == self.root_path(),
    {
        self.root.as_str()
    }

    /// `config.json` in the data folder.
    pub fn config_path(&self) -> (r: String)
        ensures
            r@ == join_spec(self.root_path(), config_json(), self.path_style()),
    {
        let name = "config.json";
        proof {
            reveal_strlit("config.json");
            assert(name@ =~= config_json());
        }
        join_str(self.root.as_str(), name, self.style)
    }

    /// `logs` in the data folder.
    pub fn log_dir(&self) -> (r: String)
        ensures
            r@ == join_spec(self.root_path(), logs(), self.path_style()),
    {
        let name = "logs";
        proof {
            reveal_strlit("logs");
            assert(name@ =~= logs());
        }
        join_str(self.root.as_str(), name, self.style)
    }

    /// `logs/backup.log` in the data folder.
    pub fn log_file(&self) -> (r: String)
        ensures
            r@ == join_spec(
                join_spec(self.root_path(), logs(), self.path_style()),
                backup_log(),
                self.path_style(),
            ),
    {
        let dir = self.log_dir();
        let name = "backup.log";
        proof {
            reveal_strlit("backup.log");
            assert(name@ =~= backup_log());
        }
        join_str(dir.as_str(), name, self.style)
    }

    /// The folders that have to exist, parents first: the data folder and its log folder.
    pub fn required_dirs(&self) -> (r: Vec<String>)
        ensures
            r@.len() == 2,
            r@[0]@ == self.root_path(),
            r@[1]@ == join_spec(self.root_path(), logs(), self.path_style()),
    {
        let mut v: Vec<String> = Vec::new();
        v.push(self.root.clone());
        v.push(self.log_dir());
        v
    }
}

} // verus!
