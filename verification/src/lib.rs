//! A minimal, zero-copy matcher for one well-formed markup element
//! (`<name ...>body</name>`) inside a character buffer.
//!
//! [`Node::read`] locates the first opening tag in a buffer, scans forward
//! to the closing tag that balances it (skipping nested same-named
//! elements), and returns a [`Node`] whose fields are borrowed views into
//! the original text.  Re-reading a node's body descends to its first
//! child; [`Node::next`] advances to the next sibling.

pub mod laws;
pub mod node;
pub mod scan;

pub use node::Node;
pub use scan::count_until;
pub use scan::get_tag_name;
pub use scan::get_tag_pos;
pub use scan::is_space;
