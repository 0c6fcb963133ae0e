//! The errors of the library, each with the message it is reported by.

use vstd::prelude::*;
use crate::text::{push_str, string_of};

verus! {

/// The application-level error.
#[derive(Debug, Clone, PartialEq, Eq)]
pub enum IrisError {
    Config(String),
    /// An I/O failure, by the text the operating system gave for it.
    Io(String),
    /// A (de)serialisation failure, by its text.
    Serialization(String),
    Device(String),
    Capture(String),
    Stream(String),
    Control(String),
    Ipc(String),
}

pub enum IrisErrorView {
    Config(Seq<char>),
    Io(Seq<char>),
    Serialization(Seq<char>),
    Device(Seq<char>),
    Capture(Seq<char>),
    Stream(Seq<char>),
    Control(Seq<char>),
    Ipc(Seq<char>),
}

impl View for IrisError {
    type V = IrisErrorView;

    open spec fn view(&self) -> IrisErrorView {
        match self {
            IrisError::Config(m) => IrisErrorView::Config(m@),
            IrisError::Io(m) => IrisErrorView::Io(m@),
            IrisError::Serialization(m) => IrisErrorView::Serialization(m@),
            IrisError::Device(m) => IrisErrorView::Device(m@),
            IrisError::Capture(m) => IrisErrorView::Capture(m@),
            IrisError::Stream(m) => IrisErrorView::Stream(m@),
            IrisError::Control(m) => IrisErrorView::Control(m@),
            IrisError::Ipc(m) => IrisErrorView::Ipc(m@),
        }
    }
}

pub open spec fn spec_iris_message(e: IrisErrorView) -> Seq<char> {
    match e {
        IrisErrorView::Config(m) => "config error: "@ + m,
        IrisErrorView::Io(m) => "IO error: "@ + m,
        IrisErrorView::Serialization(m) => "serialization error: "@ + m,
        IrisErrorView::Device(m) => "device error: "@ + m,
        IrisErrorView::Capture(m) => "capture error: "@ + m,
        IrisErrorView::Stream(m) => "stream error: "@ + m,
        IrisErrorView::Control(m) => "control error: "@ + m,
        IrisErrorView::Ipc(m) => "ipc error: "@ + m,
    }
}

impl IrisError {
    /// The message this error is reported by.
    pub fn message(&self) -> (s: String)
        ensures
            s@ == spec_iris_message(self@),
    {
        let (prefix, m) = match self {
            IrisError::Config(m) => ("config error: ", m),
            IrisError::Io(m) => ("IO error: ", m),
            IrisError::Serialization(m) => ("serialization error: ", m),
            IrisError::Device(m) => ("device error: ", m),
            IrisError::Capture(m) => ("capture error: ", m),
            IrisError::Stream(m) => ("stream error: ", m),
            IrisError::Control(m) => ("control error: ", m),
            IrisError::Ipc(m) => ("ipc error: ", m),
        };
        let mut s = string_of(prefix);
        push_str(&mut s, m.as_str());
        s
    }
}

/// Errors of the hardware layer.
#[derive(Debug, Clone, PartialEq, Eq)]
pub enum HalError {
    NotImplemented,
    DeviceNotFound,
    DeviceAlreadyOpen,
    DeviceNotOpen,
    InvalidParameter(String),
    Io(String),
}

pub enum HalErrorView {
    NotImplemented,
    DeviceNotFound,
    DeviceAlreadyOpen,
    DeviceNotOpen,
    InvalidParameter(Seq<char>),
    Io(Seq<char>),
}

impl View for HalError {
    type V = HalErrorView;

    open spec fn view(&self) -> HalErrorView {
        match self {
            HalError::NotImplemented => HalErrorView::NotImplemented,
            HalError::DeviceNotFound => HalErrorView::DeviceNotFound,
            HalError::DeviceAlreadyOpen => HalErrorView::DeviceAlreadyOpen,
            HalError::DeviceNotOpen => HalErrorView::DeviceNotOpen,
            HalError::InvalidParameter(m) => HalErrorView::InvalidParameter(m@),
            HalError::Io(m) => HalErrorView::Io(m@),
        }
    }
}

pub open spec fn spec_hal_message(e: HalErrorView) -> Seq<char> {
    match e {
        HalErrorView::NotImplemented => "backend not implemented"@,
        HalErrorView::DeviceNotFound => "device not found"@,
        HalErrorView::DeviceAlreadyOpen => "device already open"@,
        HalErrorView::DeviceNotOpen => "device not open"@,
        HalErrorView::InvalidParameter(m) => "invalid parameter: "@ + m,
        HalErrorView::Io(m) => "io error: "@ + m,
    }
}

impl HalError {
    /// The message this error is reported by.
    pub fn message(&self) -> (s: String)
        ensures
            s@ == spec_hal_message(self@),
    {
        match self {
            HalError::NotImplemented => string_of("backend not implemented"),
            HalError::DeviceNotFound => string_of("device not found"),
            HalError::DeviceAlreadyOpen => string_of("device already open"),
            HalError::DeviceNotOpen => string_of("device not open"),
            HalError::InvalidParameter(m) => {
                let mut s = string_of("invalid parameter: ");
                push_str(&mut s, m.as_str());
                s
            },
            HalError::Io(m) => {
                let mut s = string_of("io error: ");
                push_str(&mut s, m.as_str());
                s
            },
        }
    }
}

} // verus!
