//! Failures of playback and of the audio device.

use vstd::prelude::*;
use vstd::string::StringExecFns;

verus! {

/// A failure to play. Each variant holds the description of the underlying
/// error in its debug form.
#[derive(Debug, PartialEq, Eq)]
pub enum PlayError {
    Io(String),
    DecoderError(String),
    StreamError(String),
    PlayError(String),
    SeekError(String),
    /// A runtime failure of the audio output stream reported by the device itself
    /// (e.g. the device became unavailable, or its stream got corrupted after a
    /// system suspend/resume, which on some hardware results in a dead channel
    /// or a constant beep). Recovering from this requires rebuilding the output
    /// stream so the device negotiates with the driver again.
    DeviceStreamError(String),
}

/// Where a failure to play comes from.
pub ghost enum PlayErrorKind {
    Io,
    DecoderError,
    StreamError,
    PlayError,
    SeekError,
    DeviceStreamError,
}

pub ghost struct PlayErrorView {
    pub kind: PlayErrorKind,
    pub detail: Seq<char>,
}

impl View for PlayError {
    type V = PlayErrorView;

    open spec fn view(&self) -> PlayErrorView {
        match self {
            PlayError::Io(e) => PlayErrorView { kind: PlayErrorKind::Io, detail: e@ },
            PlayError::DecoderError(e) => PlayErrorView {
                kind: PlayErrorKind::DecoderError,
                detail: e@,
            },
            PlayError::StreamError(e) => PlayErrorView {
                kind: PlayErrorKind::StreamError,
                detail: e@,
            },
            PlayError::PlayError(e) => PlayErrorView { kind: PlayErrorKind::PlayError, detail: e@ },
            PlayError::SeekError(e) => PlayErrorView { kind: PlayErrorKind::SeekError, detail: e@ },
            PlayError::DeviceStreamError(e) => PlayErrorView {
                kind: PlayErrorKind::DeviceStreamError,
                detail: e@,
            },
        }
    }
}

impl PlayErrorView {
    /// Whether the audio device itself failed, as opposed to a file, the
    /// decoder or a seek.
    pub open spec fn is_device_loss(self) -> bool {
        self.kind is DeviceStreamError || self.kind is StreamError
    }

    /// The failure to find an output device.
    pub open spec fn no_device() -> Self {
        PlayErrorView { kind: PlayErrorKind::StreamError, detail: "NoDevice"@ }
    }

    /// The name of the variant.
    pub open spec fn name(self) -> Seq<char> {
        match self.kind {
            PlayErrorKind::Io => "Io"@,
            PlayErrorKind::DecoderError => "DecoderError"@,
            PlayErrorKind::StreamError => "StreamError"@,
            PlayErrorKind::PlayError => "PlayError"@,
            PlayErrorKind::SeekError => "SeekError"@,
            PlayErrorKind::DeviceStreamError => "DeviceStreamError"@,
        }
    }

    /// The debug form: the variant, and its detail in parentheses.
    pub open spec fn text(self) -> Seq<char> {
        self.name() + "("@ + self.detail + ")"@
    }
}

impl PlayError {
    /// Returns true when the failure originates from the audio device itself
    /// (the device disappeared or its stream became unusable), as opposed to
    /// a file/decoder/seek problem. Such errors require rebuilding the output
    /// stream to recover.
    pub fn is_device_loss(&self) -> (r: bool)
        ensures
            r == self@.is_device_loss(),
    {
        match self {
            Self::DeviceStreamError(_) | Self::StreamError(_) => true,
            _ => false,
        }
    }

    /// The failure to find an output device.
    pub fn no_device() -> (e: Self)
        ensures
            e@ == PlayErrorView::no_device(),
    {
        Self::StreamError("NoDevice".to_owned())
    }

    /// The debug form of the error.
    pub fn text(&self) -> (s: String)
        ensures
            s@ == self@.text(),
    {
        let (name, detail): (&str, &String) = match self {
            Self::Io(e) => ("Io", e),
            Self::DecoderError(e) => ("DecoderError", e),
            Self::StreamError(e) => ("StreamError", e),
            Self::PlayError(e) => ("PlayError", e),
            Self::SeekError(e) => ("SeekError", e),
            Self::DeviceStreamError(e) => ("DeviceStreamError", e),
        };
        let mut s = name.to_owned();
        s.append("(");
        s.append(detail.as_str());
        s.append(")");
        s
    }
}

/// Exactly the errors of the output stream, on opening it and while it runs, are
/// losses of the device.
pub proof fn law_device_loss(e: PlayError)
    ensures
        e@.is_device_loss() <==> e is StreamError || e is DeviceStreamError,
{
}

/// The debug form names the variant and holds the whole detail, in parentheses.
pub proof fn law_debug_form(e: PlayError)
    ensures
        match e {
            PlayError::Io(d) => e@.text() == "Io"@ + "("@ + d@ + ")"@,
            PlayError::DecoderError(d) => e@.text() == "DecoderError"@ + "("@ + d@ + ")"@,
            PlayError::StreamError(d) => e@.text() == "StreamError"@ + "("@ + d@ + ")"@,
            PlayError::PlayError(d) => e@.text() == "PlayError"@ + "("@ + d@ + ")"@,
            PlayError::SeekError(d) => e@.text() == "SeekError"@ + "("@ + d@ + ")"@,
            PlayError::DeviceStreamError(d) => e@.text() == "DeviceStreamError"@ + "("@ + d@ + ")"@,
        },
        e@.kind is DecoderError <==> e is DecoderError,
{
}

} // verus!
