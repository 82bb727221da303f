//! The assets that are compiled into every page: the stylesheet of the page
//! shell and the two icons of a listing.

use vstd::prelude::*;

verus! {

/// The stylesheet of the page shell.
pub const BASE_STYLES: &'static str = "
* {
    box-sizing: border-box;
}

body {
    margin: 0;
    font-family: 'Segoe UI', Helvetica, Arial, sans-serif;
    background: #f4f5f7;
    color: #24292e;
}

.border-box {
    max-width: 960px;
    margin: 2rem auto;
    padding: 1rem 1.5rem;
    background: #ffffff;
    border: 1px solid #d9dce1;
    border-radius: 6px;
}

#header {
    margin: 0 0 1rem 0;
    padding: 0.5rem 0.75rem;
    background: #eef0f3;
    border-radius: 4px;
    font-size: 1.1rem;
    overflow-x: auto;
}

#wrapper {
    display: flex;
    flex-wrap: wrap;
    gap: 0.5rem;
}

.content {
    display: flex;
    align-items: center;
    min-width: 12rem;
    padding: 0.4rem 0.6rem;
    border-radius: 4px;
    color: #0366d6;
    text-decoration: none;
}

.content:hover {
    background: #eef0f3;
}

.content svg {
    width: 1.2rem;
    height: 1.2rem;
    margin-right: 0.5rem;
    flex-shrink: 0;
}

.text {
    margin: 0;
    overflow-wrap: anywhere;
}
";

/// The icon in front of a directory.
pub const FOLDER_ICON: &'static str =
    "<svg xmlns=\"http://www.w3.org/2000/svg\" viewBox=\"0 0 24 24\" fill=\"currentColor\"><path d=\"M10 4H4a2 2 0 0 0-2 2v12a2 2 0 0 0 2 2h16a2 2 0 0 0 2-2V8a2 2 0 0 0-2-2h-8l-2-2z\"/></svg>";

/// The icon in front of anything that is no directory.
pub const FILE_ICON: &'static str =
    "<svg xmlns=\"http://www.w3.org/2000/svg\" viewBox=\"0 0 24 24\" fill=\"currentColor\"><path d=\"M14 2H6a2 2 0 0 0-2 2v16a2 2 0 0 0 2 2h12a2 2 0 0 0 2-2V8l-6-6zm0 2 4 4h-4V4z\"/></svg>";

/// The icon of an entry, as text of the model.
pub open spec fn icon(is_dir: bool) -> Seq<char> {
    if is_dir {
        FOLDER_ICON@
    } else {
        FILE_ICON@
    }
}

/// The icon of an entry.
pub fn icon_for(is_dir: bool) -> (svg: &'static str)
    ensures
        svg@ == icon(is_dir),
{
    if is_dir {
        FOLDER_ICON
    } else {
        FILE_ICON
    }
}

} // verus!
