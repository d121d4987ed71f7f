use vstd::prelude::*;

verus! {

/// The text of the default configuration file, in KDL.
pub open spec fn default_config_text() -> Seq<char> {
    r#"config {
    architecture "x86_64"
    colour true
    progressbar true
    makeflags "-j4"
}

paths {
    root ""
    database ""
    cache ""
    log ""
    gpg ""
}

repos {
    core active=true {
        ignored {
            package "eee"
            group ""
        }
    }

    extra active=true {
        ignored {
            package ""
            group ""
        }
    }

    community active=true {
        ignored {
            package ""
            group ""
        }
    }
}"#@
}

/// The default configuration file, in KDL.
pub fn default_config() -> (r: &'static str)
    ensures
        r@ == default_config_text(),
{
    r#"config {
    architecture "x86_64"
    colour true
    progressbar true
    makeflags "-j4"
}

paths {
    root ""
    database ""
    cache ""
    log ""
    gpg ""
}

repos {
    core active=true {
        ignored {
            package "eee"
            group ""
        }
    }

    extra active=true {
        ignored {
            package ""
            group ""
        }
    }

    community active=true {
        ignored {
            package ""
            group ""
        }
    }
}"#
}

} // verus!
