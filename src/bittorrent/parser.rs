use vstd::prelude::*;

verus! {

/// The arguments of the BitTorrent client: the torrent file to read and
/// where to write the downloaded file.
pub struct CommandArgument {
    pub file_path: Option<String>,
    pub target_path: String,
}

impl CommandArgument {
    pub fn new() -> (r: CommandArgument)
        ensures
            r.file_path is None,
            r.target_path@ == Seq::<char>::empty(),
    {
        CommandArgument { file_path: None, target_path: String::new() }
    }

    /// Takes the values read from the command line: the torrent path, and
    /// the output path when one was given.
    pub fn apply(&mut self, torrent: String, output: Option<String>)
        ensures
            final(self).file_path == Some(torrent),
            final(self).target_path == match output {
                Some(o) => o,
                None => old(self).target_path,
            },
    {
        self.file_path = Some(torrent);
        if let Some(o) = output {
            self.target_path = o;
        }
    }

    /// The torrent path; empty until one was given.
    pub fn get_torrent(&self) -> (r: String)
        ensures
            match self.file_path {
                Some(p) => r == p,
                None => r@ == Seq::<char>::empty(),
            },
    {
        match &self.file_path {
            Some(p) => p.clone(),
            None => String::new(),
        }
    }

    pub fn get_target_path(&self) -> (r: String)
        ensures
            r == self.target_path,
    {
        self.target_path.clone()
    }
}

} // verus!
