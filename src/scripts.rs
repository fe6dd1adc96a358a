use vstd::prelude::*;

verus! {

/// The AppleScript snippets the focus probe and the reminders run.
#[derive(Clone, Copy, Debug, PartialEq, Eq, Hash, Structural)]
pub enum ScriptType {
    ForegroundApp,
    ForegroundWindowTitle,
    SafariTabInfo,
    ChromeTabInfo,
    WifiNetwork,
    IdleTime,
    LockScreen,
    StartPomodoroReminder,
    QuitDistractingApps,
}

/// Every kind of script, in the order `load_scripts` lists them.
pub open spec fn all_script_types() -> Seq<ScriptType> {
    seq![
        ScriptType::ForegroundApp,
        ScriptType::ForegroundWindowTitle,
        ScriptType::SafariTabInfo,
        ScriptType::ChromeTabInfo,
        ScriptType::WifiNetwork,
        ScriptType::IdleTime,
        ScriptType::LockScreen,
        ScriptType::StartPomodoroReminder,
        ScriptType::QuitDistractingApps,
    ]
}

/// The AppleScript source of every kind of script: each kind once, in the
/// order of `all_script_types`.
pub fn load_scripts() -> (r: Vec<(ScriptType, String)>)
    ensures
        r@.len() == all_script_types().len(),
        forall|i: int| 0 <= i < r@.len() ==> (#[trigger] r@[i]).0 == all_script_types()[i],
{
    let mut scripts: Vec<(ScriptType, String)> = Vec::new();
    let source = r#"
        tell application \"System Events\"
            get name of first application process whose frontmost is true
        end tell
    "#;
    scripts.push((ScriptType::ForegroundApp, String::from_str(source)));
    let source = r#"
        tell application \"System Events\"
            set frontApp to first application process whose frontmost is true
            try
                get name of front window of frontApp
            on error
                return ""
            end try
        end tell
    "#;
    scripts.push((ScriptType::ForegroundWindowTitle, String::from_str(source)));
    let source = r#"
        try
            tell application \"Safari\"
                set tabName to name of current tab of front window
                set tabURL to URL of current tab of front window
                return tabName & \" | \" & tabURL
            end tell
        on error
            return ""
        end try
    "#;
    scripts.push((ScriptType::SafariTabInfo, String::from_str(source)));
    let source = r#"
        tell application \"Google Chrome\"
            set tabName to title of active tab of front window
            set tabURL to URL of active tab of front window
        end tell
        return tabName & \" | \" & tabURL
    "#;
    scripts.push((ScriptType::ChromeTabInfo, String::from_str(source)));
    let source = r#"
        do shell script \"networksetup -getairportnetwork en0 | cut -d ':' -f2 | sed 's/^ *//'\"
    "#;
    scripts.push((ScriptType::WifiNetwork, String::from_str(source)));
    let source = r#"
        do shell script \"ioreg -c IOHIDSystem | awk '/HIDIdleTime/ {print $NF/1000000000; exit}'\"
    "#;
    scripts.push((ScriptType::IdleTime, String::from_str(source)));
    let source = r#"
        do shell script "/System/Library/CoreServices/Menu\\ Extras/User.menu/Contents/Resources/CGSession -suspend"
    "#;
    scripts.push((ScriptType::LockScreen, String::from_str(source)));
    let source = r#"
        tell application \"Reminders\"
            set dueDate to (current date) + (25 * minutes)
            make new reminder with properties {name:\"Take a break\", remind me date:dueDate}
        end tell
    "#;
    scripts.push((ScriptType::StartPomodoroReminder, String::from_str(source)));
    let source = r#"
        try
            tell application \"Slack\" to quit
        end try
        try
            tell application \"Discord\" to quit
        end try
    "#;
    scripts.push((ScriptType::QuitDistractingApps, String::from_str(source)));
    assert(scripts@.len() == all_script_types().len());
    scripts
}

/// The source of the first script of kind `kind`, if any.
pub fn script_for(scripts: &Vec<(ScriptType, String)>, kind: ScriptType) -> (r: Option<&String>)
    ensures
        r.is_none() <==> forall|i: int| 0 <= i < scripts@.len() ==> (#[trigger] scripts@[i]).0 != kind,
        r.is_some() ==> exists|i: int|
            0 <= i < scripts@.len() && (#[trigger] scripts@[i]).0 == kind && *r.unwrap() == scripts@[i].1
                && forall|j: int| 0 <= j < i ==> (#[trigger] scripts@[j]).0 != kind,
{
    let mut i: usize = 0;
    while i < scripts.len()
        invariant
            0 <= i <= scripts@.len(),
            forall|j: int| 0 <= j < i ==> (#[trigger] scripts@[j]).0 != kind,
        decreases scripts@.len() - i,
    {
        if scripts[i].0 == kind {
            return Some(&scripts[i].1);
        }
        i = i + 1;
    }
    None
}

} // verus!
