//! The settings a run works with: the GitHub user, an optional API token,
//! and how a freshly fetched README template is filled in.  Reading and
//! writing the settings file is the surrounding application's concern.

use vstd::prelude::*;

verus! {

use vstd::string::StringExecFns;

/// The persistent settings of the program.
#[derive(Clone)]
pub struct ProgramSettings {
    pub github_user: String,
    pub github_api_token: Option<String>,
    pub readme_template_link: String,
    pub replace_in_readme_phrase: String,
}

impl Default for ProgramSettings {
    /// The default configuration: an empty user, no token, the standard
    /// README template and the title phrase it replaces.
    fn default() -> (s: Self)
        ensures
            s.github_user@ == Seq::<char>::empty(),
            s.github_api_token is None,
            s.readme_template_link@
                == "https://raw.githubusercontent.com/PurpleBooth/a-good-readme-template/main/README.md"@,
            s.replace_in_readme_phrase@ == "# Project Title"@,
    {
        ProgramSettings {
            github_user: String::new(),
            github_api_token: None,
            readme_template_link: String::from_str(
                "https://raw.githubusercontent.com/PurpleBooth/a-good-readme-template/main/README.md",
            ),
            replace_in_readme_phrase: String::from_str("# Project Title"),
        }
    }
}

} // verus!
