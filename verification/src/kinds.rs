//! The small vocabularies shared across the library: metadata policies,
//! frameworks, format filters and asset kinds.

use vstd::prelude::*;

verus! {

/// How much metadata optimization may strip.
#[derive(Clone, Copy, Debug, PartialEq, Eq, Structural)]
pub enum StripPolicy {
    /// Keep all metadata (the `none` policy).
    Keep,
    /// Strip metadata that does not affect how the image displays.
    Safe,
    /// Strip all metadata, color profiles included.
    All,
}

/// The kind of project whose assets are discovered.
#[derive(Clone, Copy, Debug, PartialEq, Eq, Structural)]
pub enum Framework {
    /// Detect the framework from the project files.
    Auto,
    /// A Flutter project (`pubspec.yaml`).
    Flutter,
    /// A React Native or Expo project.
    ReactNative,
    /// A web project.
    Web,
}

/// A format selected with `--format`.
#[derive(Clone, Copy, Debug, PartialEq, Eq, Structural)]
pub enum FormatFilter {
    Png,
    Jpeg,
    Webp,
    Svg,
    Gif,
    Bmp,
    Wbmp,
}

/// The kind of an asset, decided by its file extension.
#[derive(Clone, Copy, Debug, PartialEq, Eq, Structural)]
pub enum AssetKind {
    Png,
    Jpeg,
    Webp,
    Svg,
    Gif,
    Bmp,
    Wbmp,
    Other,
}

} // verus!
