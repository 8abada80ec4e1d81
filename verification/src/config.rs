//! The run configuration: thread count, template locations and data
//! directories. Loading it from a file is the surrounding application's work;
//! the defaults live here.

use vstd::prelude::*;
use vstd::string::StringExecFns;

verus! {

/// The configuration values the application runs with.
#[derive(Debug)]
pub struct Config {
    pub thread_num: u32,
    pub template_pattern: String,
    pub poem_template: String,
    pub problem_template: String,
    pub src_dir: String,
    pub res_dir: String,
}

impl Default for Config {
    /// The values used when no configuration file is given or readable.
    fn default() -> (c: Config)
        ensures
            c.thread_num == 100,
            c.template_pattern@ == "templates/**/*"@,
            c.poem_template@ == "poems_77000.html"@,
            c.problem_template@ == "problems.html"@,
            c.src_dir@ == "data/src"@,
            c.res_dir@ == "data/res"@,
    {
        Config {
            thread_num: 100,
            template_pattern: String::from_str("templates/**/*"),
            poem_template: String::from_str("poems_77000.html"),
            problem_template: String::from_str("problems.html"),
            src_dir: String::from_str("data/src"),
            res_dir: String::from_str("data/res"),
        }
    }
}

} // verus!
