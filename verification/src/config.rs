//! Application settings: where the data lives, how listings are rendered,
//! and how backups are kept. Paths are held as plain strings; the caller
//! turns them into filesystem paths.

use vstd::prelude::*;

verus! {

#[derive(Debug, Clone, Copy, PartialEq, Eq, Structural)]
pub enum OutputFormat {
    Json,
    Table,
    Yaml,
}

impl Default for OutputFormat {
    fn default() -> (r: OutputFormat)
        ensures
            r is Table,
    {
        OutputFormat::Table
    }
}

#[derive(Debug, Clone)]
pub struct BackupConfig {
    pub enabled: bool,
    pub max_backups: usize,
    pub interval_hours: u64,
}

impl Default for BackupConfig {
    fn default() -> (r: BackupConfig)
        ensures
            r.enabled,
            r.max_backups == 10,
            r.interval_hours == 24,
    {
        BackupConfig { enabled: true, max_backups: 10, interval_hours: 24 }
    }
}

#[derive(Debug, Clone)]
pub struct Config {
    pub data_dir: String,
    pub default_format: OutputFormat,
    pub show_timestamps: bool,
    pub max_list_items: Option<usize>,
    pub use_colors: bool,
    pub default_editor: Option<String>,
    pub backup: BackupConfig,
}

impl Config {
    /// The default configuration.
    pub fn new() -> (c: Config)
        ensures
            c.data_dir@ == "~/.ideavault/data"@,
            c.default_format is Table,
            c.show_timestamps,
            c.max_list_items matches Some(m) && m == 50,
            c.use_colors,
            c.default_editor is None,
            c.backup.enabled,
            c.backup.max_backups == 10,
            c.backup.interval_hours == 24,
    {
        Config {
            data_dir: String::from_str("~/.ideavault/data"),
            default_format: OutputFormat::Table,
            show_timestamps: true,
            max_list_items: Some(50),
            use_colors: true,
            default_editor: None,
            backup: BackupConfig { enabled: true, max_backups: 10, interval_hours: 24 },
        }
    }

    pub fn with_data_dir(self, data_dir: String) -> (c: Config)
        ensures
            c == (Config { data_dir, ..self }),
    {
        Config { data_dir, ..self }
    }

    pub fn with_format(self, format: OutputFormat) -> (c: Config)
        ensures
            c == (Config { default_format: format, ..self }),
    {
        Config { default_format: format, ..self }
    }

    pub fn with_timestamps(self, show: bool) -> (c: Config)
        ensures
            c == (Config { show_timestamps: show, ..self }),
    {
        Config { show_timestamps: show, ..self }
    }

    pub fn with_max_list_items(self, max: Option<usize>) -> (c: Config)
        ensures
            c == (Config { max_list_items: max, ..self }),
    {
        Config { max_list_items: max, ..self }
    }

    pub fn with_colors(self, use_colors: bool) -> (c: Config)
        ensures
            c == (Config { use_colors, ..self }),
    {
        Config { use_colors, ..self }
    }

    pub fn with_editor(self, editor: String) -> (c: Config)
        ensures
            c.default_editor matches Some(e) && e == editor,
            c == (Config { default_editor: c.default_editor, ..self }),
    {
        Config { default_editor: Some(editor), ..self }
    }

    pub fn with_backup_config(self, backup: BackupConfig) -> (c: Config)
        ensures
            c == (Config { backup, ..self }),
    {
        Config { backup, ..self }
    }

    /// The ideas file path under the data directory.
    pub fn ideas_file(&self) -> (r: String)
        ensures
            r@ == self.data_dir@ + "/ideas.json"@,
    {
        join_path(&self.data_dir, "/ideas.json")
    }

    /// The projects file path under the data directory.
    pub fn projects_file(&self) -> (r: String)
        ensures
            r@ == self.data_dir@ + "/projects.json"@,
    {
        join_path(&self.data_dir, "/projects.json")
    }

    /// The tags file path under the data directory.
    pub fn tags_file(&self) -> (r: String)
        ensures
            r@ == self.data_dir@ + "/tags.json"@,
    {
        join_path(&self.data_dir, "/tags.json")
    }

    /// The backup directory path under the data directory.
    pub fn backup_dir(&self) -> (r: String)
        ensures
            r@ == self.data_dir@ + "/backups"@,
    {
        join_path(&self.data_dir, "/backups")
    }
}

fn join_path(base: &String, rest: &str) -> (r: String)
    ensures
        r@ == base@ + rest@,
{
    let mut r = base.clone();
    r.append(rest);
    r
}

} // verus!
