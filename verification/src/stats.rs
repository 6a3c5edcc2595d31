//! Run counters: pages rendered, section files, feed files, static files
//! copied, templates loaded, and the summary table printed at the end of
//! a build.
use vstd::prelude::*;
use vstd::string::*;
use crate::text::{dec_of, u64_dec};

verus! {

/// The counters of one build run.
pub struct Stats {
    pub pages: u32,
    pub files: u32,
    pub templates: usize,
    pub sections: u32,
    pub rss: u32,
}

impl Stats {
    /// All counters at zero.
    pub fn new() -> (r: Stats)
        ensures
            r.pages == 0 && r.files == 0 && r.templates == 0 && r.sections == 0 && r.rss == 0,
    {
        Stats { pages: 0, files: 0, templates: 0, sections: 0, rss: 0 }
    }

    /// The summary table, one line per counter under a rule; the caller
    /// prints the lines as they stand.
    pub fn summary(&self) -> (r: Vec<String>)
        ensures
            r@.len() == 6,
            r@[0]@ == "+-------------+-----+"@,
            r@[1]@ == "Pages         | "@ + dec_of(self.pages as nat),
            r@[2]@ == "Section files | "@ + dec_of(self.sections as nat),
            r@[3]@ == "RSS files     | "@ + dec_of(self.rss as nat),
            r@[4]@ == "Static files  | "@ + dec_of(self.files as nat),
            r@[5]@ == "Templates     | "@ + dec_of(self.templates as nat),
    {
        let mut r: Vec<String> = Vec::new();
        r.push("+-------------+-----+".to_owned());
        let mut l1 = "Pages         | ".to_owned();
        let d1 = u64_dec(self.pages as u64);
        l1.append(d1.as_str());
        r.push(l1);
        let mut l2 = "Section files | ".to_owned();
        let d2 = u64_dec(self.sections as u64);
        l2.append(d2.as_str());
        r.push(l2);
        let mut l3 = "RSS files     | ".to_owned();
        let d3 = u64_dec(self.rss as u64);
        l3.append(d3.as_str());
        r.push(l3);
        let mut l4 = "Static files  | ".to_owned();
        let d4 = u64_dec(self.files as u64);
        l4.append(d4.as_str());
        r.push(l4);
        let mut l5 = "Templates     | ".to_owned();
        let d5 = u64_dec(self.templates as u64);
        l5.append(d5.as_str());
        r.push(l5);
        r
    }
}

} // verus!
